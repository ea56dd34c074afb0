//! The language model side: errors, streamed response chunks, and the
//! accumulation of a streamed response into sentences to speak.

use vstd::prelude::*;
use crate::sentence_splitter::{extract, string_views, SentenceSplitter};
use crate::text::{trim, trim_str};

verus! {

/// Largest streamed response kept, in characters.
pub const MAX_RESPONSE_LENGTH: usize = 50000;

/// Errors of the language model client.
pub enum LlmError {
    /// The server could not be reached.
    ConnectionError(String),
}

impl LlmError {
    /// The message shown for the error.
    pub fn message(&self) -> (r: String)
        ensures
            r@ == match self {
                LlmError::ConnectionError(s) => "Ollama APIへの接続に失敗: "@ + s@,
            },
    {
        match self {
            LlmError::ConnectionError(s) => String::from_str("Ollama APIへの接続に失敗: ").concat(
                s.as_str(),
            ),
        }
    }
}

/// One line of a streamed response: a piece of text and whether it is the last.
pub struct StreamChunk {
    pub response: String,
    pub done: bool,
}

/// What to do after a chunk: speak these sentences, and whether to stop reading.
pub struct ChunkStep {
    pub sentences: Vec<String>,
    pub stop: bool,
}

/// Collects a streamed response and splits it into sentences as it arrives.
pub struct ResponseAccumulator {
    full_response: String,
    splitter: SentenceSplitter,
}

impl ResponseAccumulator {
    /// The response text received so far.
    pub closed spec fn received(&self) -> Seq<char> {
        self.full_response@
    }

    /// Text received but not yet handed out as a sentence.
    pub closed spec fn pending(&self) -> Seq<char> {
        self.splitter@
    }

    /// The sentence splitter's length limit.
    pub closed spec fn limit(&self) -> nat {
        self.splitter.max_len()
    }

    /// Nothing received yet.
    pub fn new() -> (r: Self)
        ensures
            r.received() == Seq::<char>::empty(),
            r.pending() == Seq::<char>::empty(),
            r.limit() == 200,
    {
        ResponseAccumulator { full_response: String::new(), splitter: SentenceSplitter::new() }
    }

    /// Takes one chunk. When the chunk would take the response past
    /// `MAX_RESPONSE_LENGTH` characters, it is dropped and reading stops: the
    /// kept response never grows past the limit. Otherwise its text is added
    /// to the response, the sentences it completes are returned, and reading
    /// stops after the last chunk.
    pub fn on_chunk(&mut self, response: &str, done: bool) -> (r: ChunkStep)
        ensures
            final(self).limit() == old(self).limit(),
            if old(self).received().len() + response@.len() > MAX_RESPONSE_LENGTH {
                &&& r.stop
                &&& r.sentences@.len() == 0
                &&& final(self).received() == old(self).received()
                &&& final(self).pending() == old(self).pending()
            } else {
                &&& r.stop == done
                &&& final(self).received() == old(self).received() + response@
                &&& string_views(r.sentences@) == extract(
                    old(self).pending() + response@,
                    old(self).limit(),
                ).0
                &&& final(self).pending() == extract(
                    old(self).pending() + response@,
                    old(self).limit(),
                ).1
            },
            old(self).received().len() <= MAX_RESPONSE_LENGTH ==> final(self).received().len()
                <= MAX_RESPONSE_LENGTH,
    {
        let kept = self.full_response.as_str().unicode_len();
        let added = response.unicode_len();
        if kept > MAX_RESPONSE_LENGTH || added > MAX_RESPONSE_LENGTH - kept {
            return ChunkStep { sentences: Vec::new(), stop: true };
        }
        self.full_response.append(response);
        let sentences = self.splitter.push(response);
        ChunkStep { sentences, stop: done }
    }

    /// The trimmed response received so far.
    pub fn response_text(&self) -> (r: String)
        ensures
            r@ == trim(self.received()),
    {
        trim_str(self.full_response.as_str())
    }

    /// Ends the stream: the last, unterminated sentence if there is one.
    pub fn finish(&mut self) -> (r: Option<String>)
        ensures
            final(self).received() == old(self).received(),
            final(self).pending() == Seq::<char>::empty(),
            match r {
                Some(s) => s@ == trim(old(self).pending()) && s@.len() > 0,
                None => trim(old(self).pending()).len() == 0,
            },
    {
        self.splitter.flush()
    }
}

} // verus!

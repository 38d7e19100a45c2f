//! The local model server: where it is, which model it runs, and what its answers
//! mean.
use crate::text::{chars_of, string_of_range, trim, trim_end_char, trim_end_char_bound, trimmed};
use vstd::prelude::*;
use vstd::string::StringExecFns;

verus! {

/// Why the model gave no answer.
#[derive(Debug)]
pub enum OllamaError {
    Http(String),
    Unavailable(String),
}

impl OllamaError {
    /// The error as a sentence.
    pub fn message(&self) -> (s: String)
        ensures
            s@ == match self {
                OllamaError::Http(m) => "HTTP error: "@ + m@,
                OllamaError::Unavailable(url) => "Ollama not available at "@ + url@,
            },
    {
        let (head, m) = match self {
            OllamaError::Http(m) => ("HTTP error: ", m),
            OllamaError::Unavailable(m) => ("Ollama not available at ", m),
        };
        let mut s = head.to_owned();
        s.append(m.as_str());
        s
    }
}

/// Where the model server is and which model it runs.
#[derive(Debug)]
pub struct OllamaSettings {
    /// The server's address without a trailing slash.
    pub base_url: String,
    pub model: String,
}

impl OllamaSettings {
    /// The settings for a server address (trailing slashes dropped) and a model.
    pub fn new(base_url: &str, model: &str) -> (s: OllamaSettings)
        ensures
            s.base_url@ == trim_end_char(base_url@, '/'),
            s.model@ == model@,
    {
        let v = chars_of(base_url);
        let hi = trim_end_char_bound(v.as_slice(), 0, v.len(), '/');
        assert(v@.subrange(0, v@.len() as int) =~= v@);
        OllamaSettings { base_url: string_of_range(v.as_slice(), 0, hi), model: model.to_owned() }
    }

    /// The address that lists the installed models.
    pub fn tags_url(&self) -> (u: String)
        ensures
            u@ == self.base_url@ + "/api/tags"@,
    {
        let mut u = self.base_url.clone();
        u.append("/api/tags");
        u
    }

    /// The address that generates an answer.
    pub fn generate_url(&self) -> (u: String)
        ensures
            u@ == self.base_url@ + "/api/generate"@,
    {
        let mut u = self.base_url.clone();
        u.append("/api/generate");
        u
    }

    /// The model's answer: refused as unavailable when the server did not report
    /// success, else the answer trimmed.
    pub fn answer(&self, success: bool, response: &str) -> (r: Result<String, OllamaError>)
        ensures
            !success ==> (r matches Err(OllamaError::Unavailable(u)) && u@ == self.base_url@),
            success ==> (r matches Ok(a) && a@ == trim(response@)),
    {
        if !success {
            return Err(OllamaError::Unavailable(self.base_url.clone()));
        }
        Ok(trimmed(response))
    }
}

} // verus!

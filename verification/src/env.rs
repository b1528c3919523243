//! The environment source: a JSON object file of variable bindings, loaded
//! lazily and converted to a flat variable mapping.

use crate::errors::ReqqError;
use crate::text::opt_text_view;
use crate::trusted::{env_entries_of, parse_env_object};
use crate::vars::distinct_keys;
use vstd::prelude::*;

verus! {

/// Where the cached text of a lazily loaded file stands after raw text is
/// supplied: an already loaded cache is kept unchanged; an empty one takes
/// the supplied text.
pub open spec fn cache_after(cur: Option<Seq<char>>, text: Seq<char>) -> Option<Seq<char>> {
    if cur is Some {
        cur
    } else {
        Some(text)
    }
}

/// Loading is idempotent: supplying raw text a second time leaves exactly
/// the cache that the first supply left, whatever text the second supply
/// carries, so at most one file read is ever needed per instance.
pub proof fn lemma_cache_idempotent(cur: Option<Seq<char>>, t1: Seq<char>, t2: Seq<char>)
    ensures
        cache_after(cache_after(cur, t1), t2) == cache_after(cur, t1),
{
}

/// An environment configuration file: a path and its lazily loaded text.
#[derive(Clone)]
pub struct Env {
    pub fpath: String,
    pub fstr: Option<String>,
}

impl Env {
    /// A fresh, unloaded environment source.
    pub fn new(fpath: String) -> (r: Env)
        ensures
            r.fpath == fpath,
            r.fstr is None,
    {
        Env { fpath, fstr: None }
    }

    /// Whether raw file text still has to be supplied.
    pub fn needs_text(&self) -> (r: bool)
        ensures
            r == (self.fstr is None),
    {
        self.fstr.is_none()
    }

    /// Cache raw file text; text already cached is kept unchanged.
    pub fn provide_text(&mut self, text: String)
        ensures
            final (self).fpath == old(self).fpath,
            opt_text_view(final (self).fstr) == cache_after(
                opt_text_view(old(self).fstr),
                text@,
            ),
            old(self).fstr is Some ==> final (self).fstr == old(self).fstr,
            old(self).fstr is None ==> final (self).fstr == Some(text),
    {
        if self.fstr.is_none() {
            self.fstr = Some(text);
        }
    }

    /// The environment as a flat variable mapping, with distinct keys.
    ///
    /// Fails with `IoError` exactly when no text has been loaded, succeeds
    /// with exactly the object's entries when the loaded text is a JSON
    /// object, and fails with `FormatError` exactly when it is not.
    pub fn to_vars(&self) -> (r: Result<Vec<(String, serde_json::Value)>, ReqqError>)
        ensures
            self.fstr is None <==> r == Err::<Vec<(String, serde_json::Value)>, ReqqError>(
                ReqqError::IoError,
            ),
            self.fstr matches Some(s) ==> (r is Ok <==> env_entries_of(s@) is Some),
            self.fstr matches Some(s) ==> (r matches Ok(v) ==> Some(v@) == env_entries_of(s@)),
            self.fstr matches Some(s) ==> (env_entries_of(s@) is None ==> r == Err::<
                Vec<(String, serde_json::Value)>,
                ReqqError,
            >(ReqqError::FormatError)),
            r matches Ok(v) ==> distinct_keys(v@),
    {
        match &self.fstr {
            None => Err(ReqqError::IoError),
            Some(s) => match parse_env_object(s.as_str()) {
                Ok(v) => Ok(v),
                Err(_) => Err(ReqqError::FormatError),
            },
        }
    }
}

} // verus!


//! A request file: its path, its lazily loaded raw text, and — after a
//! successful parse — the structured request. The raw text is kept as it was
//! read; expansion produces a new string, so a parse always starts from the
//! original, unexpanded text.

use crate::env::{cache_after, Env};
use crate::errors::{ParseError, ReqqError};
use crate::grammar::has_placeholder_open;
use crate::parse::{parse_request_text, parse_text, RequestInner, SpecRequest};
use crate::text::{chars_vec, opt_text_view, strip_prefix_all, strip_prefix_reps,
    strip_suffix_all, strip_suffix_reps};
use crate::trusted::{env_entries_of, render_of, render_template};
use crate::vars::merge_vars;
use vstd::prelude::*;
use vstd::string::StrSliceExecFns;

verus! {

/// What deriving a request's name yields: the path with every leading copy
/// of the directory stripped, then leading slashes, then every trailing
/// `.reqq` extension.
pub open spec fn name_spec(fpath: Seq<char>, dir: Seq<char>) -> Seq<char> {
    strip_suffix_reps(
        strip_prefix_reps(strip_prefix_reps(fpath, dir), seq!['/']),
        seq!['.', 'r', 'e', 'q', 'q'],
    )
}

/// What expanding loaded text `f` against the merged variables and parsing
/// the expansion owes: the extra arguments follow the environment entries
/// into the mapping, the render decides the `TemplateError` case, and the
/// expanded text is parsed exactly as `parse_request_text` states.
pub open spec fn spec_execute(
    f: Seq<char>,
    env_entries: Seq<(String, serde_json::Value)>,
    extra_args: Seq<(String, serde_json::Value)>,
) -> Result<SpecRequest, ReqqError> {
    match render_of(f, env_entries + extra_args) {
        None => Err(ReqqError::TemplateError),
        Some(expanded) => match parse_request_text(expanded) {
            Ok(m) => Ok(m),
            Err(pe) => Err(ReqqError::Parse(pe)),
        },
    }
}

/// A request file and its lifecycle state.
#[derive(Clone)]
pub struct Request {
    pub fpath: String,
    pub fstr: Option<String>,
    pub inner: Option<RequestInner>,
}

impl Request {
    /// A fresh request for a file path, with nothing loaded or parsed.
    pub fn new(fpath: String) -> (r: Request)
        ensures
            r.fpath == fpath,
            r.fstr is None,
            r.inner is None,
    {
        Request { fpath, fstr: None, inner: None }
    }

    /// Whether raw file text still has to be supplied.
    pub fn needs_text(&self) -> (r: bool)
        ensures
            r == (self.fstr is None),
    {
        self.fstr.is_none()
    }

    /// Cache raw file text; text already cached is kept unchanged.
    pub fn provide_text(&mut self, text: String)
        ensures
            final (self).fpath == old(self).fpath,
            final (self).inner == old(self).inner,
            opt_text_view(final (self).fstr) == cache_after(
                opt_text_view(old(self).fstr),
                text@,
            ),
            old(self).fstr is Some ==> final (self).fstr == old(self).fstr,
            old(self).fstr is None ==> final (self).fstr == Some(text),
    {
        if self.fstr.is_none() {
            self.fstr = Some(text);
        }
    }

    /// The request's name: its path relative to the configured directory,
    /// with the fixed extension removed and path separators preserved.
    pub fn name(&self, dir: &str) -> (r: String)
        ensures
            r@ == name_spec(self.fpath@, dir@),
    {
        let fp = chars_vec(self.fpath.as_str());
        let dv = chars_vec(dir);
        let mut sl: Vec<char> = Vec::new();
        sl.push('/');
        let mut ext: Vec<char> = Vec::new();
        ext.push('.');
        ext.push('r');
        ext.push('e');
        ext.push('q');
        ext.push('q');
        proof {
            assert(sl@ =~= seq!['/']);
            assert(ext@ =~= seq!['.', 'r', 'e', 'q', 'q']);
            assert(fp@.skip(0) =~= fp@);
        }
        let i1 = strip_prefix_all(&fp, 0, &dv);
        let i2 = strip_prefix_all(&fp, i1, &sl);
        let j = strip_suffix_all(&fp, i2, fp.len(), &ext);
        proof {
            assert(fp@.subrange(i2 as int, fp@.len() as int) =~= fp@.skip(i2 as int));
        }
        self.fpath.as_str().substring_char(i2, j).to_owned()
    }

    /// Expand the raw text against the merged variables and parse it.
    ///
    /// The raw text is never changed: re-parsing always starts from the
    /// original, unexpanded text. The outcome is pinned for every input:
    /// `IoError` exactly where request or environment text is unloaded,
    /// `FormatError` exactly where the environment text is no JSON object,
    /// and otherwise what `spec_execute` states for the raw text and the
    /// variable entries. When the text holds no placeholder opener,
    /// expansion returns it byte-identically, so the outcome is then exactly
    /// what `parse_request_text` states for the raw text, whether or not any
    /// variables were supplied.
    pub fn parse(&mut self, env: Option<Env>, extra_args: Vec<(String, serde_json::Value)>) -> (r:
        Result<(), ReqqError>)
        ensures
            final (self).fpath == old(self).fpath,
            final (self).fstr == old(self).fstr,
            old(self).fstr is None ==> r == Err::<(), ReqqError>(ReqqError::IoError),
            (old(self).fstr is Some && env is Some && env->0.fstr is None) ==> r == Err::<
                (),
                ReqqError,
            >(ReqqError::IoError),
            r is Err ==> final (self).inner == old(self).inner,
            r is Ok ==> final (self).inner is Some,
            (old(self).fstr is Some && env is None) ==> (match spec_execute(
                old(self).fstr->0@,
                Seq::empty(),
                extra_args@,
            ) {
                Ok(m) => r is Ok && final (self).inner is Some && final (self).inner->0@ == m,
                Err(e) => r == Err::<(), ReqqError>(e),
            }),
            (old(self).fstr is Some && env is Some && env->0.fstr is Some)
                ==> (match env_entries_of(env->0.fstr->0@) {
                None => r == Err::<(), ReqqError>(ReqqError::FormatError),
                Some(entries) => match spec_execute(old(self).fstr->0@, entries, extra_args@) {
                    Ok(m) => r is Ok && final (self).inner is Some && final (self).inner->0@
                        == m,
                    Err(e) => r == Err::<(), ReqqError>(e),
                },
            }),
            (old(self).fstr is Some && !has_placeholder_open(old(self).fstr->0@) && r is Ok)
                ==> parse_request_text(old(self).fstr->0@) == Ok::<SpecRequest, ParseError>(
                final (self).inner->0@,
            ),
            (old(self).fstr is Some && !has_placeholder_open(old(self).fstr->0@) && env is None)
                ==> (match parse_request_text(old(self).fstr->0@) {
                Ok(m) => r is Ok && final (self).inner is Some && final (self).inner->0@ == m,
                Err(e) => r == Err::<(), ReqqError>(ReqqError::Parse(e)),
            }),
    {
        let fstr = match &self.fstr {
            Some(s) => s.clone(),
            None => {
                return Err(ReqqError::IoError);
            },
        };
        let env_entries: Vec<(String, serde_json::Value)> = match env {
            None => Vec::new(),
            Some(e) => match e.to_vars() {
                Ok(v) => v,
                Err(er) => {
                    return Err(er);
                },
            },
        };
        let merged = merge_vars(&env_entries, &extra_args);
        let expanded = match render_template(fstr.as_str(), &merged) {
            Ok(t) => t,
            Err(_) => {
                return Err(ReqqError::TemplateError);
            },
        };
        let inner = match parse_text(expanded.as_str()) {
            Ok(i) => i,
            Err(pe) => {
                return Err(ReqqError::Parse(pe));
            },
        };
        self.inner = Some(inner);
        Ok(())
    }
}

} // verus!


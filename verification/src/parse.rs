//! The request parser. Expanded request-file text is consumed as three
//! sequential zones with irrevocable transitions: the request line, the
//! header lines, and the body. The first line that fails the header pattern
//! is not discarded — it becomes the seed of the body.

use crate::errors::ParseError;
use crate::grammar::{
    field_char, header_name_of, header_name_ok, header_value_of, header_value_ok, is_header_line,
    lemma_field_prefix_len_is, lemma_first_cs_is, lower_header, method_token_ok,
};
use crate::text::{
    bounds_ok, chars_vec, first_at, join_nl, lemma_first_at_is, lemma_join_nl_push, line_bounds,
    opt_text_view, spec_lines,
};
use crate::trusted::{parse_header_name, parse_header_value, parse_method, parse_url, url_norm};
use vstd::prelude::*;
use vstd::string::StrSliceExecFns;
use vstd::string::StringExecFns;

verus! {

/// The mathematical model of a structured request.
#[verifier::ext_equal]
pub ghost struct SpecRequest {
    pub method: Seq<char>,
    pub url: Seq<char>,
    pub headers: Seq<(Seq<char>, Seq<char>)>,
    pub body: Option<Seq<char>>,
}

/// The header zone and the body zone of the lines after the request line.
/// Lines are consumed while they match the header pattern; the first
/// non-matching line seeds the body, and every remaining line is appended
/// with a newline separator.
pub open spec fn parse_headers(lines: Seq<Seq<char>>) -> Result<
    (Seq<(Seq<char>, Seq<char>)>, Option<Seq<char>>),
    ParseError,
>
    decreases lines.len(),
{
    if lines.len() == 0 {
        Ok((Seq::empty(), None))
    } else if !is_header_line(lines[0]) {
        Ok((Seq::empty(), Some(join_nl(lines))))
    } else {
        let name = header_name_of(lines[0]);
        let value = header_value_of(lines[0]);
        if !header_name_ok(name) {
            Err(ParseError::HeaderNameError)
        } else if !header_value_ok(value) {
            Err(ParseError::HeaderValueError)
        } else {
            match parse_headers(lines.skip(1)) {
                Ok(rest) => Ok((seq![(lower_header(name), value)] + rest.0, rest.1)),
                Err(e) => Err(e),
            }
        }
    }
}

/// What parsing a whole expanded request text yields: the request line is
/// split on its first space into a method token and a URL, then the header
/// and body zones follow.
pub open spec fn parse_request_text(s: Seq<char>) -> Result<SpecRequest, ParseError> {
    let lines = spec_lines(s);
    if lines.len() == 0 {
        Err(ParseError::MalformedRequestLine)
    } else {
        let l0 = lines[0];
        let i = first_at(l0, ' ');
        if i >= l0.len() {
            Err(ParseError::MalformedRequestLine)
        } else {
            let m = l0.take(i);
            let u = l0.skip(i + 1);
            if !method_token_ok(m) {
                Err(ParseError::MethodError)
            } else {
                match url_norm(u) {
                    None => Err(ParseError::UrlError),
                    Some(nu) => match parse_headers(lines.skip(1)) {
                        Err(e) => Err(e),
                        Ok(hb) => Ok(
                            SpecRequest { method: m, url: nu, headers: hb.0, body: hb.1 },
                        ),
                    },
                }
            }
        }
    }
}

/// A fully parsed request: method, normalized URL, ordered headers (names
/// folded to lowercase, duplicates kept), and the optional body text.
#[derive(Clone, Debug, PartialEq, Eq)]
pub struct RequestInner {
    pub method: String,
    pub url: String,
    pub headers: Vec<(String, String)>,
    pub body: Option<String>,
}

/// The header pairs as sequences of characters.
pub open spec fn headers_view(hs: Seq<(String, String)>) -> Seq<(Seq<char>, Seq<char>)> {
    Seq::new(hs.len(), |i: int| (hs[i].0@, hs[i].1@))
}

impl View for RequestInner {
    type V = SpecRequest;

    open spec fn view(&self) -> SpecRequest {
        SpecRequest {
            method: self.method@,
            url: self.url@,
            headers: headers_view(self.headers@),
            body: opt_text_view(self.body),
        }
    }
}

/// The pending header zone continues the already collected pairs.
pub open spec fn headers_cont(
    rest: Seq<Seq<char>>,
    acc: Seq<(Seq<char>, Seq<char>)>,
    total: Result<(Seq<(Seq<char>, Seq<char>)>, Option<Seq<char>>), ParseError>,
) -> bool {
    match parse_headers(rest) {
        Ok(hb) => total == Ok::<_, ParseError>((acc + hb.0, hb.1)),
        Err(e) => total == Err::<(Seq<(Seq<char>, Seq<char>)>, Option<Seq<char>>), _>(e),
    }
}

/// The remaining lines from `from` on, joined back with newline separators.
#[verifier::loop_isolation(false)]
fn build_body(text: &str, bounds: &Vec<(usize, usize)>, from: usize) -> (b: String)
    requires
        bounds_ok(bounds@, text@),
        from < bounds@.len(),
    ensures
        b@ == join_nl(spec_lines(text@).skip(from as int)),
{
    let ghost t = text@;
    let ghost ls = spec_lines(t);
    let nb = bounds.len();
    let bf = bounds[from];
    let b0 = text.substring_char(bf.0, bf.1);
    let mut b = b0.to_owned();
    let mut m = from + 1;
    proof {
        assert(ls.subrange(from as int, from + 1 as int) =~= seq![ls[from as int]]);
        assert(join_nl(seq![ls[from as int]]) == ls[from as int]);
    }
    while m < nb
        invariant
            bounds_ok(bounds@, t),
            t == text@,
            ls == spec_lines(t),
            from < m <= bounds@.len(),
            b@ == join_nl(ls.subrange(from as int, m as int)),
        decreases bounds@.len() - m,
    {
        let bm = bounds[m];
        b.append("\n");
        b.append(text.substring_char(bm.0, bm.1));
        proof {
            reveal_strlit("\n");
            assert("\n"@ =~= seq!['\n']);
            lemma_join_nl_push(ls.subrange(from as int, m as int), ls[m as int]);
            assert(ls.subrange(from as int, m + 1 as int) =~= ls.subrange(
                from as int,
                m as int,
            ).push(ls[m as int]));
        }
        m += 1;
    }
    proof {
        assert(ls.subrange(from as int, bounds@.len() as int) =~= ls.skip(from as int));
    }
    b
}

/// Parse fully expanded request text into a structured request.
///
/// The outcome — the parsed request as well as each failure — is exactly
/// what `parse_request_text` states for the input.
#[verifier::loop_isolation(false)]
#[verifier::rlimit(60)]
pub fn parse_text(text: &str) -> (r: Result<RequestInner, ParseError>)
    ensures
        match r {
            Ok(inner) => parse_request_text(text@) == Ok::<SpecRequest, ParseError>(inner@),
            Err(e) => parse_request_text(text@) == Err::<SpecRequest, ParseError>(e),
        },
{
    let ghost t = text@;
    let ghost ls = spec_lines(t);
    let chars = chars_vec(text);
    let bounds = line_bounds(&chars);
    if bounds.len() == 0 {
        return Err(ParseError::MalformedRequestLine);
    }
    let b0 = bounds[0];
    let s0 = b0.0;
    let e0 = b0.1;
    let ghost l0 = ls[0];
    // Zone 1: the request line, split on its first space.
    let mut i: usize = s0;
    while i < e0 && chars[i] != ' '
        invariant
            s0 <= i <= e0 <= t.len(),
            chars@ == t,
            l0 == t.subrange(s0 as int, e0 as int),
            forall|k: int| s0 <= k < i ==> t[k] != ' ',
        decreases e0 - i,
    {
        i += 1;
    }
    proof {
        assert forall|k: int| 0 <= k < i - s0 implies l0[k] != ' ' by {
            assert(l0[k] == t[s0 + k]);
        }
        if i < e0 {
            assert(l0[i - s0] == t[i as int]);
            lemma_first_at_is(l0, ' ', i - s0);
        } else {
            lemma_first_at_is(l0, ' ', l0.len() as int);
        }
    }
    if i == e0 {
        return Err(ParseError::MalformedRequestLine);
    }
    let method_str = text.substring_char(s0, i);
    let url_str = text.substring_char(i + 1, e0);
    proof {
        assert(method_str@ =~= l0.take(i - s0));
        assert(url_str@ =~= l0.skip(i - s0 + 1));
    }
    let method = match parse_method(method_str) {
        Ok(m) => m,
        Err(_) => {
            return Err(ParseError::MethodError);
        },
    };
    let url = match parse_url(url_str) {
        Ok(u) => u,
        Err(_) => {
            return Err(ParseError::UrlError);
        },
    };
    // Zone 2: header lines, until the first line that fails the pattern.
    let ghost tail = parse_headers(ls.skip(1));
    let mut headers: Vec<(String, String)> = Vec::new();
    let mut k: usize = 1;
    proof {
        if parse_headers(ls.skip(1)) is Ok {
            let hb = parse_headers(ls.skip(1))->Ok_0;
            assert(headers_view(headers@) + hb.0 =~= hb.0);
        }
        assert(headers_cont(ls.skip(1), headers_view(headers@), tail));
    }
    while k < bounds.len()
        invariant
            1 <= k <= bounds@.len(),
            chars@ == t,
            t == text@,
            ls == spec_lines(t),
            bounds_ok(bounds@, t),
            tail == parse_headers(ls.skip(1)),
            headers_cont(ls.skip(k as int), headers_view(headers@), tail),
        decreases bounds@.len() - k,
    {
        let bk = bounds[k];
        let s = bk.0;
        let e = bk.1;
        let ghost l = ls[k as int];
        proof {
            assert(l == t.subrange(s as int, e as int));
            assert(ls.skip(k as int)[0] == l);
        }
        // Does the line match the header pattern?
        let mut j: usize = s;
        while j < e && field_char(chars[j])
            invariant
                s <= j <= e <= t.len(),
                chars@ == t,
                l == t.subrange(s as int, e as int),
                forall|k2: int| s <= k2 < j ==> crate::grammar::is_field_char(#[trigger] t[k2]),
            decreases e - j,
        {
            j += 1;
        }
        proof {
            assert forall|k2: int| 0 <= k2 < j - s implies crate::grammar::is_field_char(
                #[trigger] l[k2],
            ) by {
                assert(l[k2] == t[s + k2]);
            }
            if j < e {
                assert(l[j - s] == t[j as int]);
                lemma_field_prefix_len_is(l, j - s);
            } else {
                lemma_field_prefix_len_is(l, l.len() as int);
            }
        }
        let is_hdr = j > s && e - j > 1 && chars[j] == ':';
        proof {
            if j < e {
                assert(l[j - s] == t[j as int]);
            }
            assert(is_hdr == is_header_line(l));
        }
        if !is_hdr {
            // Zone 3: this line seeds the body; the rest follows verbatim.
            let body_text = build_body(text, &bounds, k);
            proof {
                let rest = ls.skip(k as int);
                assert(rest.len() > 0);
                assert(!is_header_line(rest[0]));
                assert(parse_headers(rest) == Ok::<_, ParseError>((
                    Seq::<(Seq<char>, Seq<char>)>::empty(),
                    Some(join_nl(rest)),
                )));
                let hv = headers_view(headers@);
                assert(hv + Seq::<(Seq<char>, Seq<char>)>::empty() =~= hv);
                assert(tail == Ok::<_, ParseError>((hv, Some(body_text@))));
            }
            let inner = RequestInner { method, url, headers, body: Some(body_text) };
            proof {
                let pr = parse_request_text(t);
                assert(pr is Ok);
                assert(pr->Ok_0 =~~= inner@);
            }
            return Ok(inner);
        }
        // Split on the first ": "; without one the whole line is taken as
        // the name, which then fails name validation.
        let mut q: usize = s;
        while e - q > 1 && !(chars[q] == ':' && chars[q + 1] == ' ')
            invariant
                s <= q <= e <= t.len(),
                chars@ == t,
                l == t.subrange(s as int, e as int),
                forall|k2: int|
                    s <= k2 < q ==> !(#[trigger] t[k2] == ':' && t[k2 + 1] == ' '),
            decreases e - q,
        {
            q += 1;
        }
        let has_cs = e - q > 1;
        proof {
            assert forall|k2: int|
                0 <= k2 && k2 + 1 < l.len() && k2 < q - s implies !(#[trigger] l[k2] == ':'
                && l[k2 + 1] == ' ') by {
                assert(l[k2] == t[s + k2]);
                assert(l[k2 + 1] == t[s + k2 + 1]);
            }
            if has_cs {
                assert(l[q - s] == t[q as int]);
                assert(l[q - s + 1] == t[q + 1 as int]);
                lemma_first_cs_is(l, q - s);
            } else {
                lemma_first_cs_is(l, l.len() as int);
            }
        }
        let (name_str, value_str) = if has_cs {
            (text.substring_char(s, q), text.substring_char(q + 2, e))
        } else {
            (text.substring_char(s, e), text.substring_char(e, e))
        };
        proof {
            assert(name_str@ =~= header_name_of(l));
            assert(value_str@ =~= header_value_of(l));
        }
        let name = match parse_header_name(name_str) {
            Ok(n) => n,
            Err(_) => {
                return Err(ParseError::HeaderNameError);
            },
        };
        let value = match parse_header_value(value_str) {
            Ok(v) => v,
            Err(_) => {
                return Err(ParseError::HeaderValueError);
            },
        };
        proof {
            assert(ls.skip(k as int).skip(1) =~= ls.skip(k + 1 as int));
            let ghost old_hv = headers_view(headers@);
            if parse_headers(ls.skip(k + 1 as int)) is Ok {
                let rest = parse_headers(ls.skip(k + 1 as int))->Ok_0;
                assert(old_hv + (seq![(lower_header(header_name_of(l)), header_value_of(l))]
                    + rest.0) =~= old_hv.push((lower_header(header_name_of(l)), header_value_of(l)))
                    + rest.0);
            }
        }
        let ghost old_headers = headers@;
        headers.push((name, value));
        proof {
            assert(headers_view(headers@) =~= headers_view(old_headers).push(
                (lower_header(header_name_of(l)), header_value_of(l)),
            ));
        }
        k += 1;
    }
    // Zone 2 consumed every line: there is no body.
    proof {
        assert(ls.skip(bounds@.len() as int) =~= Seq::<Seq<char>>::empty());
        assert(parse_headers(ls.skip(bounds@.len() as int)) == Ok::<_, ParseError>((
            Seq::<(Seq<char>, Seq<char>)>::empty(),
            None::<Seq<char>>,
        )));
        let hv = headers_view(headers@);
        assert(hv + Seq::<(Seq<char>, Seq<char>)>::empty() =~= hv);
        assert(tail == Ok::<_, ParseError>((hv, None::<Seq<char>>)));
    }
    let inner = RequestInner { method, url, headers, body: None };
    proof {
        let pr = parse_request_text(t);
        assert(pr is Ok);
        assert(pr->Ok_0 =~~= inner@);
    }
    Ok(inner)
}

/// Every well-formed request line `"<M> <U>"` — a valid method token, one
/// space, and a URL the URL parser accepts — parses to exactly that method
/// and the normalized form of that URL, with no headers and no body.
pub proof fn lemma_request_line(m: Seq<char>, u: Seq<char>)
    requires
        method_token_ok(m),
        url_norm(u) is Some,
        forall|i: int| 0 <= i < u.len() ==> #[trigger] u[i] != '\n',
    ensures
        parse_request_text(m + seq![' '] + u) == Ok::<SpecRequest, ParseError>(
            SpecRequest {
                method: m,
                url: url_norm(u)->0,
                headers: Seq::empty(),
                body: None,
            },
        ),
{
    let s = m + seq![' '] + u;
    assert(s.len() == m.len() + 1 + u.len());
    assert forall|i: int| 0 <= i < s.len() implies #[trigger] s[i] != '\n' by {
        if i < m.len() {
            assert(s[i] == m[i]);
            assert(crate::grammar::is_token_char(m[i]));
        } else if i == m.len() {
            assert(s[i] == ' ');
        } else {
            assert(s[i] == u[i - m.len() - 1]);
        }
    }
    lemma_first_at_is(s, '\n', s.len() as int);
    assert(spec_lines(s) == seq![s]);
    let ls = spec_lines(s);
    assert(ls[0] == s);
    assert forall|k: int| 0 <= k < m.len() implies s[k] != ' ' by {
        assert(s[k] == m[k]);
        assert(crate::grammar::is_token_char(m[k]));
    }
    assert(s[m.len() as int] == ' ');
    lemma_first_at_is(s, ' ', m.len() as int);
    assert(s.take(m.len() as int) =~= m);
    assert(s.skip(m.len() as int + 1) =~= u);
    assert(ls.skip(1) =~= Seq::<Seq<char>>::empty());
    let pr = parse_request_text(s);
    assert(pr is Ok);
    assert(pr->Ok_0 =~~= SpecRequest {
        method: m,
        url: url_norm(u)->0,
        headers: Seq::empty(),
        body: None,
    });
}

/// In a line sequence whose first `n` lines match the header pattern with
/// valid name and value tokens and whose next line does not match, every
/// matching line becomes exactly one header pair, in original order, and the
/// first non-matching line seeds the body, followed by the remaining lines.
pub proof fn lemma_header_zone(lines: Seq<Seq<char>>, n: int)
    requires
        0 <= n < lines.len(),
        forall|k: int| 0 <= k < n ==> is_header_line(#[trigger] lines[k]),
        forall|k: int| 0 <= k < n ==> header_name_ok(header_name_of(#[trigger] lines[k])),
        forall|k: int| 0 <= k < n ==> header_value_ok(header_value_of(#[trigger] lines[k])),
        !is_header_line(lines[n]),
    ensures
        parse_headers(lines) == Ok::<(Seq<(Seq<char>, Seq<char>)>, Option<Seq<char>>), ParseError>(
            (
                Seq::new(
                    n as nat,
                    |k: int| (lower_header(header_name_of(lines[k])), header_value_of(lines[k])),
                ),
                Some(join_nl(lines.skip(n))),
            ),
        ),
    decreases n,
{
    let hs = Seq::new(
        n as nat,
        |k: int| (lower_header(header_name_of(lines[k])), header_value_of(lines[k])),
    );
    if n == 0 {
        assert(lines.skip(0) =~= lines);
        assert(hs =~= Seq::<(Seq<char>, Seq<char>)>::empty());
    } else {
        let rest = lines.skip(1);
        assert forall|k: int| 0 <= k < n - 1 implies is_header_line(#[trigger] rest[k])
            && header_name_ok(header_name_of(rest[k])) && header_value_ok(
            header_value_of(rest[k]),
        ) by {
            assert(rest[k] == lines[k + 1]);
        }
        assert(rest[n - 1] == lines[n]);
        lemma_header_zone(rest, n - 1);
        assert(rest.skip(n - 1) =~= lines.skip(n));
        let hs_rest = Seq::new(
            (n - 1) as nat,
            |k: int| (lower_header(header_name_of(rest[k])), header_value_of(rest[k])),
        );
        assert(seq![(lower_header(header_name_of(lines[0])), header_value_of(lines[0]))] + hs_rest
            =~= hs) by {
            assert forall|k: int|
                0 <= k < n implies (seq![
                (lower_header(header_name_of(lines[0])), header_value_of(lines[0])),
            ] + hs_rest)[k] == hs[k] by {
                if k > 0 {
                    assert(rest[k - 1] == lines[k]);
                }
            }
        }
    }
}

} // verus!


//! The request sent to the server, and the splitting of what comes back
//! into header lines and a body.
use vstd::prelude::*;
use vstd::string::{StringExecFns, StringSliceAdditionalSpecFns};
use crate::text::{chars_of, string_of};

verus! {

broadcast use vstd::string::group_string_axioms;

/// One probe's outcome: the response split into header lines and body,
/// the time the exchange took (ns), and the byte length of the response.
pub struct HttpReturn {
    pub headers: Vec<String>,
    pub body: String,
    pub total_time: u128,
    pub response_size: usize,
}

/// The character sequences of a sequence of strings.
pub open spec fn strings_view(v: Seq<String>) -> Seq<Seq<char>> {
    v.map_values(|s: String| s@)
}

/// The character sequences of a sequence of string slices.
pub open spec fn slices_view(v: Seq<&str>) -> Seq<Seq<char>> {
    v.map_values(|s: &str| s@)
}

/// The pieces of `s` between occurrences of `"\r\n"`, scanned from the
/// left, where `cur` is the piece read so far.
pub open spec fn crlf_split_from(s: Seq<char>, cur: Seq<char>) -> Seq<Seq<char>>
    decreases s.len(),
{
    if s.len() == 0 {
        seq![cur]
    } else if s.len() >= 2 && s[0] == '\r' && s[1] == '\n' {
        seq![cur] + crlf_split_from(s.subrange(2, s.len() as int), Seq::empty())
    } else {
        crlf_split_from(s.drop_first(), cur.push(s[0]))
    }
}

/// The lines of `s` separated by `"\r\n"`; an empty input is one empty line.
pub open spec fn crlf_lines(s: Seq<char>) -> Seq<Seq<char>> {
    crlf_split_from(s, Seq::empty())
}

/// All lines joined with nothing between them.
pub open spec fn concat_lines(lines: Seq<Seq<char>>) -> Seq<char>
    decreases lines.len(),
{
    if lines.len() == 0 {
        Seq::empty()
    } else {
        lines[0] + concat_lines(lines.drop_first())
    }
}

/// The lines before the first empty line (all lines, if none is empty).
pub open spec fn header_lines(lines: Seq<Seq<char>>) -> Seq<Seq<char>>
    decreases lines.len(),
{
    if lines.len() == 0 || lines[0].len() == 0 {
        Seq::empty()
    } else {
        seq![lines[0]] + header_lines(lines.drop_first())
    }
}

/// The lines after the first empty line, joined; empty if no line is empty.
pub open spec fn body_text(lines: Seq<Seq<char>>) -> Seq<char>
    decreases lines.len(),
{
    if lines.len() == 0 {
        Seq::empty()
    } else if lines[0].len() == 0 {
        concat_lines(lines.drop_first())
    } else {
        body_text(lines.drop_first())
    }
}

/// The request text for `path` on `host`, port 80.
pub open spec fn request_text(host: Seq<char>, path: Seq<char>) -> Seq<char> {
    "GET /"@ + path + " HTTP/1.0\r\nHost: "@ + host + ":80\r\nConnection: close\r\n\r\n"@
}

/// The address `host:80` that a probe connects to.
pub fn target_address(host: &str) -> (r: String)
    ensures
        r@ == host@ + ":80"@,
{
    let mut out = String::from_str(host);
    out.append(":80");
    out
}

/// The HTTP/1.0 GET request for `/path` on `host`, asking the server to
/// close the connection after its response.
pub fn build_request(host: &str, path: &str) -> (r: String)
    ensures
        r@ == request_text(host@, path@),
{
    let mut out = String::from_str("GET /");
    out.append(path);
    out.append(" HTTP/1.0\r\nHost: ");
    out.append(host);
    out.append(":80\r\nConnection: close\r\n\r\n");
    out
}

/// Splits `raw` into its `"\r\n"`-separated lines.
pub fn split_lines(raw: &str) -> (r: Vec<String>)
    ensures
        strings_view(r@) == crlf_lines(raw@),
{
    let cs = chars_of(raw);
    let n = cs.len();
    let mut out: Vec<String> = Vec::new();
    let mut start: usize = 0;
    let mut i: usize = 0;
    assert(cs@.subrange(0, n as int) =~= cs@);
    assert(cs@.subrange(0, 0) =~= Seq::<char>::empty());
    assert(strings_view(out@) + crlf_lines(cs@) =~= crlf_lines(cs@));
    while i < n
        invariant
            start <= i <= n == cs@.len(),
            cs@ == raw@,
            strings_view(out@) + crlf_split_from(
                cs@.subrange(i as int, n as int),
                cs@.subrange(start as int, i as int),
            ) == crlf_lines(cs@),
        decreases n - i,
    {
        let ghost rest = cs@.subrange(i as int, n as int);
        let ghost cur = cs@.subrange(start as int, i as int);
        if i + 1 < n && cs[i] == '\r' && cs[i + 1] == '\n' {
            let line = string_of(&cs, start, i);
            assert(rest.subrange(2, rest.len() as int) =~= cs@.subrange(i + 2, n as int));
            assert(strings_view(out@.push(line)) =~= strings_view(out@).push(line@));
            assert(strings_view(out@) + (seq![cur] + crlf_split_from(
                cs@.subrange(i + 2, n as int),
                Seq::empty(),
            )) =~= strings_view(out@).push(line@) + crlf_split_from(
                cs@.subrange(i + 2, n as int),
                Seq::empty(),
            ));
            out.push(line);
            i = i + 2;
            start = i;
            assert(cs@.subrange(start as int, i as int) =~= Seq::<char>::empty());
        } else {
            assert(rest.drop_first() =~= cs@.subrange(i + 1, n as int));
            assert(cur.push(cs@[i as int]) =~= cs@.subrange(start as int, i + 1));
            i = i + 1;
        }
    }
    let last = string_of(&cs, start, n);
    assert(cs@.subrange(n as int, n as int) =~= Seq::<char>::empty());
    assert(strings_view(out@.push(last)) =~= strings_view(out@).push(last@));
    assert(strings_view(out@) + seq![last@] =~= strings_view(out@).push(last@));
    out.push(last);
    out
}

/// Splits response lines into header lines and body: the lines before the
/// first empty line are headers, the empty line itself is dropped, and the
/// lines after it are joined without separators into the body. With no
/// empty line every line is a header and the body is empty.
pub fn split_results(res: Vec<&str>) -> (r: (Vec<String>, String))
    ensures
        strings_view(r.0@) == header_lines(slices_view(res@)),
        r.1@ == body_text(slices_view(res@)),
{
    let ghost lines = slices_view(res@);
    let mut headers: Vec<String> = Vec::new();
    let mut body = String::new();
    let mut breaker: bool = false;
    let n = res.len();
    let mut i: usize = 0;
    assert(lines.subrange(0, n as int) =~= lines);
    assert(strings_view(headers@) + header_lines(lines) =~= header_lines(lines));
    while i < n
        invariant
            i <= n == res@.len(),
            lines == slices_view(res@),
            !breaker ==> strings_view(headers@) + header_lines(lines.subrange(i as int, n as int))
                == header_lines(lines),
            !breaker ==> body@.len() == 0,
            !breaker ==> body_text(lines.subrange(i as int, n as int)) == body_text(lines),
            breaker ==> strings_view(headers@) == header_lines(lines),
            breaker ==> body@ + concat_lines(lines.subrange(i as int, n as int)) == body_text(
                lines,
            ),
        decreases n - i,
    {
        let line: &str = res[i];
        let ghost rest = lines.subrange(i as int, n as int);
        assert(rest[0] == line@);
        assert(rest.drop_first() =~= lines.subrange(i + 1, n as int));
        if line.is_empty() && !breaker {
            assert(strings_view(headers@) + header_lines(rest) =~= strings_view(headers@));
            assert(body@ =~= Seq::<char>::empty());
            breaker = true;
        } else if !breaker {
            let h = line.to_string();
            assert(strings_view(headers@.push(h)) =~= strings_view(headers@).push(h@));
            assert(strings_view(headers@) + header_lines(rest) =~= strings_view(headers@).push(h@)
                + header_lines(lines.subrange(i + 1, n as int)));
            headers.push(h);
        } else {
            assert(body@ + concat_lines(rest) =~= (body@ + line@) + concat_lines(
                lines.subrange(i + 1, n as int),
            ));
            body.append(line);
        }
        i = i + 1;
    }
    assert(lines.subrange(n as int, n as int) =~= Seq::<Seq<char>>::empty());
    assert(strings_view(headers@) + Seq::<Seq<char>>::empty() =~= strings_view(headers@));
    assert(body@ + Seq::<char>::empty() =~= body@);
    (headers, body)
}

impl HttpReturn {
    /// Builds a probe's outcome from the raw response text and the time
    /// the exchange took.
    pub fn from_raw(raw: &str, total_time: u128) -> (r: HttpReturn)
        ensures
            strings_view(r.headers@) == header_lines(crlf_lines(raw@)),
            r.body@ == body_text(crlf_lines(raw@)),
            r.total_time == total_time,
            r.response_size == (#[verifier::truncate] (raw.spec_bytes().len() as usize)),
    {
        let lines = split_lines(raw);
        let mut refs: Vec<&str> = Vec::new();
        let mut i: usize = 0;
        while i < lines.len()
            invariant
                i <= lines@.len(),
                refs@.len() == i,
                slices_view(refs@) == strings_view(lines@).subrange(0, i as int),
            decreases lines@.len() - i,
        {
            let s: &str = lines[i].as_str();
            assert(s@ == strings_view(lines@)[i as int]);
            assert forall|j: int| 0 <= j < i implies refs@[j]@ == lines@[j]@ by {
                assert(slices_view(refs@)[j] == strings_view(lines@).subrange(0, i as int)[j]);
            }
            assert(slices_view(refs@.push(s)) =~= strings_view(lines@).subrange(0, i + 1));
            refs.push(s);
            i = i + 1;
        }
        assert(strings_view(lines@).subrange(0, lines@.len() as int) =~= strings_view(lines@));
        let (headers, body) = split_results(refs);
        HttpReturn { headers, body, total_time, response_size: raw.len() }
    }
}

} // verus!

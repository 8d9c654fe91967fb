//! The head parser. It consumes a complete textual request head — request
//! line, header lines, blank-line terminator — and yields a `RequestParts`,
//! or fails. It does no reading itself: the transport hands it a fully
//! buffered block.

use vstd::prelude::*;

use crate::http::{HeaderMap, Method, ReqModel, RequestParts, Version, method_token, version_token};
use crate::text::chars_vec;

verus! {

/// The error for a request head that does not parse: an unknown method or
/// version token, a malformed header line, or a missing terminator. Fatal
/// to the request; the transport must close the connection.
#[derive(Clone, Copy, PartialEq, Eq, Structural, Debug)]
pub struct ParseError;

/// The first position at or after `pos` holding `c`, or the end.
pub open spec fn scan_till(s: Seq<char>, pos: nat, c: char) -> nat
    decreases s.len() - pos,
{
    if pos >= s.len() {
        pos
    } else if s[pos as int] == c {
        pos
    } else {
        scan_till(s, (pos + 1) as nat, c)
    }
}

/// Scanning never moves backwards.
pub proof fn lemma_scan_till_ge(s: Seq<char>, pos: nat, c: char)
    ensures
        scan_till(s, pos, c) >= pos,
    decreases s.len() - pos,
{
    if pos < s.len() && s[pos as int] != c {
        lemma_scan_till_ge(s, (pos + 1) as nat, c);
    }
}

/// Whether `p` stands in `s` at position `pos`.
pub open spec fn has_prefix_at(s: Seq<char>, pos: nat, p: Seq<char>) -> bool {
    pos + p.len() <= s.len() && s.subrange(pos as int, (pos + p.len()) as int) == p
}

/// The method token at the head of the input: one of the closed set,
/// followed by a space. Yields the method and the position after the space.
pub open spec fn spec_method_at(s: Seq<char>) -> Option<(Method, nat)> {
    if has_prefix_at(s, 0, method_token(Method::Get) + seq![' ']) {
        Some((Method::Get, (method_token(Method::Get).len() + 1) as nat))
    } else if has_prefix_at(s, 0, method_token(Method::Post) + seq![' ']) {
        Some((Method::Post, (method_token(Method::Post).len() + 1) as nat))
    } else {
        None
    }
}

/// The version token at `pos`: one of the closed set, followed by CRLF.
/// Yields the version and the position after the CRLF.
pub open spec fn spec_version_at(s: Seq<char>, pos: nat) -> Option<(Version, nat)> {
    if has_prefix_at(s, pos, version_token(Version::Http10) + seq!['\r', '\n']) {
        Some((Version::Http10, (pos + version_token(Version::Http10).len() + 2) as nat))
    } else if has_prefix_at(s, pos, version_token(Version::Http11) + seq!['\r', '\n']) {
        Some((Version::Http11, (pos + version_token(Version::Http11).len() + 2) as nat))
    } else {
        None
    }
}

/// One header line at `pos`: a name running to the first `:`, then `": "`,
/// then a value running to the first CR, then CRLF. Yields name, value and
/// the position after the CRLF, or nothing where the line is not of that
/// shape.
pub open spec fn spec_header_line(s: Seq<char>, pos: nat) -> Option<(Seq<char>, Seq<char>, nat)> {
    let name_end = scan_till(s, pos, ':');
    if name_end + 2 <= s.len() && s[name_end as int] == ':' && s[name_end as int + 1] == ' ' {
        let val_end = scan_till(s, (name_end + 2) as nat, '\r');
        if val_end + 2 <= s.len() && s[val_end as int] == '\r' && s[val_end as int + 1] == '\n' {
            Some(
                (
                    s.subrange(pos as int, name_end as int),
                    s.subrange(name_end as int + 2, val_end as int),
                    (val_end + 2) as nat,
                ),
            )
        } else {
            None
        }
    } else {
        None
    }
}

/// Header lines taken greedily from `pos` on, each one folded into the
/// mapping — a repeated name overwrites, the last value wins. Yields the
/// mapping and the position of the first non-header-line.
pub open spec fn spec_parse_headers(
    s: Seq<char>,
    pos: nat,
    acc: Map<Seq<char>, Seq<char>>,
) -> (Map<Seq<char>, Seq<char>>, nat)
    decreases s.len() - pos,
    when pos <= s.len()
    via spec_parse_headers_dec
{
    match spec_header_line(s, pos) {
        Some((name, value, p)) => spec_parse_headers(s, p, acc.insert(name, value)),
        None => (acc, pos),
    }
}

#[via_fn]
proof fn spec_parse_headers_dec(s: Seq<char>, pos: nat, acc: Map<Seq<char>, Seq<char>>) {
    lemma_scan_till_ge(s, pos, ':');
    lemma_scan_till_ge(s, (scan_till(s, pos, ':') + 2) as nat, '\r');
}

/// The whole request head: request line, header lines, a final CRLF.
/// Characters after the final CRLF are ignored. Nothing where the head is
/// malformed.
pub open spec fn spec_parse_request(s: Seq<char>) -> Option<ReqModel> {
    match spec_method_at(s) {
        None => None,
        Some((m, p1)) => {
            let u_end = scan_till(s, p1, ' ');
            if u_end < s.len() && s[u_end as int] == ' ' {
                let uri = s.subrange(p1 as int, u_end as int);
                match spec_version_at(s, (u_end + 1) as nat) {
                    None => None,
                    Some((ver, p3)) => {
                        if p3 <= s.len() {
                            let (hdrs, p4) = spec_parse_headers(s, p3, Map::empty());
                            if p4 + 2 <= s.len() && s[p4 as int] == '\r' && s[p4 as int + 1]
                                == '\n' {
                                Some(ReqModel { method: m, uri, version: ver, headers: hdrs })
                            } else {
                                None
                            }
                        } else {
                            None
                        }
                    },
                }
            } else {
                None
            }
        },
    }
}

/// Scans for the first `c` at or after `pos`.
fn scan(v: &Vec<char>, pos: usize, c: char) -> (r: usize)
    requires
        pos <= v@.len(),
    ensures
        r == scan_till(v@, pos as nat, c),
        pos <= r <= v@.len(),
        r < v@.len() ==> v@[r as int] == c,
        forall|j: int| pos <= j < r ==> v@[j] != c,
{
    let mut i = pos;
    while i < v.len()
        invariant
            pos <= i <= v@.len(),
            scan_till(v@, pos as nat, c) == scan_till(v@, i as nat, c),
            forall|j: int| pos <= j < i ==> v@[j] != c,
        decreases v@.len() - i,
    {
        if v[i] == c {
            return i;
        }
        i = i + 1;
    }
    i
}

/// One header line at `pos`, as the grammar has it.
fn header_line(s: &str, v: &Vec<char>, pos: usize) -> (r: Option<(String, String, usize)>)
    requires
        v@ == s@,
        pos <= v@.len(),
    ensures
        match r {
            Some(t) => {
                &&& spec_header_line(s@, pos as nat) == Some((t.0@, t.1@, t.2 as nat))
                &&& pos < t.2 <= v@.len()
            },
            None => spec_header_line(s@, pos as nat) is None,
        },
{
    let name_end = scan(v, pos, ':');
    if v.len() >= 2 && name_end <= v.len() - 2 && v[name_end + 1] == ' ' {
        let val_end = scan(v, name_end + 2, '\r');
        if val_end <= v.len() - 2 && v[val_end + 1] == '\n' {
            let name = s.substring_char(pos, name_end).to_owned();
            let value = s.substring_char(name_end + 2, val_end).to_owned();
            Some((name, value, val_end + 2))
        } else {
            None
        }
    } else {
        None
    }
}

/// Whether a byte buffer ends in the blank-line terminator CRLF CRLF —
/// the transport's test that a head is complete and ready to parse.
pub fn head_complete(buf: &[u8]) -> (r: bool)
    ensures
        r == (buf@.len() > 4 && buf@.subrange(buf@.len() - 4, buf@.len() as int) == seq![
            13u8,
            10u8,
            13u8,
            10u8,
        ]),
{
    let n = buf.len();
    if n > 4 && buf[n - 4] == 13 && buf[n - 3] == 10 && buf[n - 2] == 13 && buf[n - 1] == 10 {
        proof {
            assert(buf@.subrange(buf@.len() - 4, buf@.len() as int) =~= seq![13u8, 10u8, 13u8, 10u8]);
        }
        true
    } else {
        proof {
            if buf@.len() > 4 && buf@.subrange(buf@.len() - 4, buf@.len() as int) == seq![
                13u8,
                10u8,
                13u8,
                10u8,
            ] {
                assert(buf@[buf@.len() - 4] == buf@.subrange(buf@.len() - 4, buf@.len() as int)[0]);
                assert(buf@[buf@.len() - 3] == buf@.subrange(buf@.len() - 4, buf@.len() as int)[1]);
                assert(buf@[buf@.len() - 2] == buf@.subrange(buf@.len() - 4, buf@.len() as int)[2]);
                assert(buf@[buf@.len() - 1] == buf@.subrange(buf@.len() - 4, buf@.len() as int)[3]);
            }
        }
        false
    }
}

impl RequestParts {
    /// Parses a complete textual request head. Succeeds exactly where the
    /// grammar accepts the input; a repeated header name keeps its last
    /// value.
    pub fn from_str(s: &str) -> (r: Result<RequestParts, ParseError>)
        ensures
            match r {
                Ok(p) => spec_parse_request(s@) == Some(p@),
                Err(_) => spec_parse_request(s@) is None,
            },
    {
        let v = chars_vec(s);
        let n = v.len();

        // Request line: method token and the space after it.
        let m: Method;
        let p1: usize;
        if n >= 4 && v[0] == 'G' && v[1] == 'E' && v[2] == 'T' && v[3] == ' ' {
            m = Method::Get;
            p1 = 4;
            proof {
                reveal_strlit("GET");
                assert(s@.subrange(0, 4) =~= method_token(Method::Get) + seq![' ']);
                assert(spec_method_at(s@) == Some((Method::Get, 4 as nat)));
            }
        } else if n >= 5 && v[0] == 'P' && v[1] == 'O' && v[2] == 'S' && v[3] == 'T' && v[4]
            == ' ' {
            m = Method::Post;
            p1 = 5;
            proof {
                reveal_strlit("GET");
                reveal_strlit("POST");
                let tokg = method_token(Method::Get) + seq![' '];
                if has_prefix_at(s@, 0, tokg) {
                    assert(s@.subrange(0, 4)[0] == s@[0] && tokg[0] == 'G');
                }
                assert(s@.subrange(0, 5) =~= method_token(Method::Post) + seq![' ']);
                assert(spec_method_at(s@) == Some((Method::Post, 5 as nat)));
            }
        } else {
            proof {
                reveal_strlit("GET");
                reveal_strlit("POST");
                let tokg = method_token(Method::Get) + seq![' '];
                let tokp = method_token(Method::Post) + seq![' '];
                if has_prefix_at(s@, 0, tokg) {
                    assert(s@.subrange(0, 4)[0] == s@[0] && tokg[0] == 'G');
                    assert(s@.subrange(0, 4)[1] == s@[1] && tokg[1] == 'E');
                    assert(s@.subrange(0, 4)[2] == s@[2] && tokg[2] == 'T');
                    assert(s@.subrange(0, 4)[3] == s@[3] && tokg[3] == ' ');
                    assert(false);
                }
                if has_prefix_at(s@, 0, tokp) {
                    assert(s@.subrange(0, 5)[0] == s@[0] && tokp[0] == 'P');
                    assert(s@.subrange(0, 5)[1] == s@[1] && tokp[1] == 'O');
                    assert(s@.subrange(0, 5)[2] == s@[2] && tokp[2] == 'S');
                    assert(s@.subrange(0, 5)[3] == s@[3] && tokp[3] == 'T');
                    assert(s@.subrange(0, 5)[4] == s@[4] && tokp[4] == ' ');
                    assert(false);
                }
                assert(spec_method_at(s@) is None);
            }
            return Err(ParseError);
        }

        // The URI: every character up to the next space, untouched.
        let u_end = scan(&v, p1, ' ');
        if u_end >= n {
            return Err(ParseError);
        }
        let uri = s.substring_char(p1, u_end).to_owned();

        // Version token and the CRLF after it.
        let p2 = u_end + 1;
        let ver: Version;
        if n >= 10 && p2 <= n - 10 && v[p2] == 'H' && v[p2 + 1] == 'T' && v[p2 + 2] == 'T' && v[p2
            + 3] == 'P' && v[p2 + 4] == '/' && v[p2 + 5] == '1' && v[p2 + 6] == '.' && v[p2 + 7]
            == '0' && v[p2 + 8] == '\r' && v[p2 + 9] == '\n' {
            ver = Version::Http10;
            proof {
                reveal_strlit("HTTP/1.0");
                assert(s@.subrange(p2 as int, p2 + 10) =~= version_token(Version::Http10) + seq![
                    '\r',
                    '\n',
                ]);
                assert(spec_version_at(s@, p2 as nat) == Some((Version::Http10, (p2 + 10) as nat)));
            }
        } else if n >= 10 && p2 <= n - 10 && v[p2] == 'H' && v[p2 + 1] == 'T' && v[p2 + 2] == 'T'
            && v[p2 + 3] == 'P' && v[p2 + 4] == '/' && v[p2 + 5] == '1' && v[p2 + 6] == '.' && v[p2
            + 7] == '1' && v[p2 + 8] == '\r' && v[p2 + 9] == '\n' {
            ver = Version::Http11;
            proof {
                reveal_strlit("HTTP/1.0");
                reveal_strlit("HTTP/1.1");
                let tok0 = version_token(Version::Http10) + seq!['\r', '\n'];
                if has_prefix_at(s@, p2 as nat, tok0) {
                    assert(s@.subrange(p2 as int, p2 + 10)[7] == s@[p2 + 7] && tok0[7] == '0');
                }
                assert(s@.subrange(p2 as int, p2 + 10) =~= version_token(Version::Http11) + seq![
                    '\r',
                    '\n',
                ]);
                assert(spec_version_at(s@, p2 as nat) == Some((Version::Http11, (p2 + 10) as nat)));
            }
        } else {
            proof {
                reveal_strlit("HTTP/1.0");
                reveal_strlit("HTTP/1.1");
                let tok0 = version_token(Version::Http10) + seq!['\r', '\n'];
                let tok1 = version_token(Version::Http11) + seq!['\r', '\n'];
                if has_prefix_at(s@, p2 as nat, tok0) {
                    let sub = s@.subrange(p2 as int, p2 + 10);
                    assert(sub[0] == s@[p2 as int] && tok0[0] == 'H');
                    assert(sub[1] == s@[p2 + 1] && tok0[1] == 'T');
                    assert(sub[2] == s@[p2 + 2] && tok0[2] == 'T');
                    assert(sub[3] == s@[p2 + 3] && tok0[3] == 'P');
                    assert(sub[4] == s@[p2 + 4] && tok0[4] == '/');
                    assert(sub[5] == s@[p2 + 5] && tok0[5] == '1');
                    assert(sub[6] == s@[p2 + 6] && tok0[6] == '.');
                    assert(sub[7] == s@[p2 + 7] && tok0[7] == '0');
                    assert(sub[8] == s@[p2 + 8] && tok0[8] == '\r');
                    assert(sub[9] == s@[p2 + 9] && tok0[9] == '\n');
                    assert(false);
                }
                if has_prefix_at(s@, p2 as nat, tok1) {
                    let sub = s@.subrange(p2 as int, p2 + 10);
                    assert(sub[0] == s@[p2 as int] && tok1[0] == 'H');
                    assert(sub[1] == s@[p2 + 1] && tok1[1] == 'T');
                    assert(sub[2] == s@[p2 + 2] && tok1[2] == 'T');
                    assert(sub[3] == s@[p2 + 3] && tok1[3] == 'P');
                    assert(sub[4] == s@[p2 + 4] && tok1[4] == '/');
                    assert(sub[5] == s@[p2 + 5] && tok1[5] == '1');
                    assert(sub[6] == s@[p2 + 6] && tok1[6] == '.');
                    assert(sub[7] == s@[p2 + 7] && tok1[7] == '1');
                    assert(sub[8] == s@[p2 + 8] && tok1[8] == '\r');
                    assert(sub[9] == s@[p2 + 9] && tok1[9] == '\n');
                    assert(false);
                }
                assert(spec_version_at(s@, p2 as nat) is None);
            }
            return Err(ParseError);
        }
        let p3 = p2 + 10;

        // Header lines, greedily, folding repeats to the last value.
        let mut headers = HeaderMap::new();
        let mut pos = p3;
        let mut more = true;
        while more
            invariant
                v@ == s@,
                n == v@.len(),
                p3 <= pos <= n,
                spec_parse_headers(s@, p3 as nat, Map::empty()) == spec_parse_headers(
                    s@,
                    pos as nat,
                    headers@,
                ),
                !more ==> spec_header_line(s@, pos as nat) is None,
            decreases n - pos + (if more { 1int } else { 0int }),
        {
            let ghost old_pos = pos;
            let ghost old_map = headers@;
            match header_line(s, &v, pos) {
                Some((name, value, p)) => {
                    let ghost nv = (name@, value@);
                    headers.insert(name, value);
                    pos = p;
                    proof {
                        assert(spec_parse_headers(s@, old_pos as nat, old_map)
                            == spec_parse_headers(s@, pos as nat, old_map.insert(nv.0, nv.1)));
                    }
                },
                None => {
                    more = false;
                },
            }
        }
        let ghost hdrs_final = spec_parse_headers(s@, p3 as nat, Map::empty());
        proof {
            assert(hdrs_final == (headers@, pos as nat));
        }

        // The blank-line terminator. Anything after it is ignored.
        if n >= 2 && pos <= n - 2 && v[pos] == '\r' && v[pos + 1] == '\n' {
            let result = RequestParts { method: m, uri, version: ver, headers };
            proof {
                assert(spec_parse_request(s@) == Some(result@));
            }
            Ok(result)
        } else {
            Err(ParseError)
        }
    }
}

} // verus!

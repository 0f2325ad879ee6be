//! The HTTP response entity: protocol scheme and version, status, ordered
//! header list, and body text, with a fluent builder API, a serializer to
//! wire text, and a forgiving parser from wire text.

use vstd::prelude::*;
use vstd::string::StrSliceExecFns;
use vstd::string::StringExecFns;
use crate::error::Error;
use crate::error::ErrorType;
use crate::header::header_sep;
use crate::header::Header;
use crate::status::code_text;
use crate::status::lemma_status_text_clean;
use crate::status::lemma_status_wire_round_trip;
use crate::status::status_from_code_text;
use crate::status::Status;
use crate::text::dec_str;
use crate::text::find;
use crate::text::find_pat;
use crate::text::lemma_find_pat_first_at;
use crate::text::lemma_find_pat_none_of_first;
use crate::text::lemma_find_single_after;
use crate::text::split_all;
use crate::text::str_byte_len;
use crate::text::u64_to_string;

verus! {

/// The line terminator of the wire format.
pub open spec fn crlf() -> Seq<char> {
    "\r\n"@
}

/// The blank-line separator between the head section and the body.
pub open spec fn blank_line_sep() -> Seq<char> {
    "\r\n\r\n"@
}

/// The rendered header block: each header's text followed by a line
/// terminator, in list order.
pub open spec fn headers_text(hs: Seq<Header>) -> Seq<char>
    decreases hs.len(),
{
    if hs.len() == 0 {
        Seq::empty()
    } else {
        headers_text(hs.drop_last()) + hs.last().text() + crlf()
    }
}

/// The head section of wire text `t`: everything before the first blank-line
/// separator, or all of `t` when the separator is absent.
pub open spec fn head_text(t: Seq<char>) -> Seq<char> {
    let f = find_pat(t, blank_line_sep());
    if f == -1 {
        t
    } else {
        t.subrange(0, f)
    }
}

/// The body of wire text `t`: everything after the first blank-line
/// separator, or empty when the separator is absent.
pub open spec fn body_text(t: Seq<char>) -> Seq<char> {
    let f = find_pat(t, blank_line_sep());
    if f == -1 {
        Seq::empty()
    } else {
        t.subrange(f + blank_line_sep().len(), t.len() as int)
    }
}

/// The lines of the head section; never empty.
pub open spec fn head_lines(t: Seq<char>) -> Seq<Seq<char>> {
    split_all(head_text(t), crlf())
}

/// The start line of wire text `t`: the first line of its head section.
pub open spec fn start_line(t: Seq<char>) -> Seq<char> {
    head_lines(t)[0]
}

/// The header lines of wire text `t`: every head line after the start line.
pub open spec fn header_lines(t: Seq<char>) -> Seq<Seq<char>> {
    head_lines(t).subrange(1, head_lines(t).len() as int)
}

/// The key/value pair of one header line, split once on `": "`; a line
/// without that separator has none.
pub open spec fn header_pair(line: Seq<char>) -> Option<(Seq<char>, Seq<char>)> {
    let f = find_pat(line, header_sep());
    if f == -1 {
        None
    } else {
        Some((line.subrange(0, f), line.subrange(f + header_sep().len(), line.len() as int)))
    }
}

/// The key/value pairs of a sequence of header lines, in line order; a line
/// without the `": "` separator is skipped and contributes no pair.
pub open spec fn header_pairs(lines: Seq<Seq<char>>) -> Seq<(Seq<char>, Seq<char>)>
    decreases lines.len(),
{
    if lines.len() == 0 {
        Seq::empty()
    } else {
        match header_pair(lines[0]) {
            Some(p) => seq![p] + header_pairs(lines.subrange(1, lines.len() as int)),
            None => header_pairs(lines.subrange(1, lines.len() as int)),
        }
    }
}

/// The key/value pairs that a sequence of headers carries, in order.
pub open spec fn header_pairs_of(hs: Seq<Header>) -> Seq<(Seq<char>, Seq<char>)> {
    hs.map_values(|h: Header| (h.key@, h.value@))
}

/// The text renderings of a sequence of headers, in order.
pub open spec fn rendered_lines(hs: Seq<Header>) -> Seq<Seq<char>> {
    hs.map_values(|h: Header| h.text())
}

/// Text free of carriage returns and line feeds.
pub open spec fn clean_text(s: Seq<char>) -> bool {
    forall|i: int| 0 <= i < s.len() ==> #[trigger] s[i] != '\r' && s[i] != '\n'
}

/// Text free of spaces, slashes, carriage returns and line feeds: fit to
/// serve as a scheme or version token.
pub open spec fn clean_token(s: Seq<char>) -> bool {
    forall|i: int| 0 <= i < s.len() ==> #[trigger] s[i] != ' ' && s[i] != '/' && s[i] != '\r'
        && s[i] != '\n'
}

/// A header key that survives the round trip: free of line terminators and of
/// the `": "` separator.
pub open spec fn key_clean(s: Seq<char>) -> bool {
    &&& clean_text(s)
    &&& forall|j: int|
        0 <= j && j + header_sep().len() <= s.len() ==> #[trigger] s.subrange(
            j,
            j + header_sep().len() as int,
        ) != header_sep()
}

/// Headers whose keys and values all survive the round trip.
pub open spec fn headers_clean(hs: Seq<Header>) -> bool {
    forall|k: int|
        #![trigger hs[k]]
        0 <= k < hs.len() ==> key_clean(hs[k].key@) && clean_text(hs[k].value@)
}

/// The header block as it stands inside the head section: the rendered
/// headers joined by line terminators, with no terminator after the last.
pub open spec fn block_text(hs: Seq<Header>) -> Seq<char>
    decreases hs.len(),
{
    if hs.len() == 0 {
        Seq::empty()
    } else if hs.len() == 1 {
        hs[0].text()
    } else {
        hs[0].text() + crlf() + block_text(hs.subrange(1, hs.len() as int))
    }
}

/// A header line without the `": "` separator is tolerated and skipped: the
/// pairs of a line sequence with such a line inserted anywhere are exactly
/// the pairs of the sequence without it, in the same order.
pub proof fn lemma_malformed_header_line_skipped(lines: Seq<Seq<char>>, i: int, bad: Seq<char>)
    requires
        0 <= i <= lines.len(),
        find_pat(bad, header_sep()) == -1,
    ensures
        header_pairs(lines.insert(i, bad)) == header_pairs(lines),
    decreases lines.len(),
{
    let ins = lines.insert(i, bad);
    if i == 0 {
        assert(ins[0] == bad);
        assert(ins.subrange(1, ins.len() as int) =~~= lines);
        assert(header_pairs(ins) =~= header_pairs(lines));
    } else {
        let rest = lines.subrange(1, lines.len() as int);
        assert(ins[0] == lines[0]);
        assert(ins.subrange(1, ins.len() as int) =~~= rest.insert(i - 1, bad));
        lemma_malformed_header_line_skipped(rest, i - 1, bad);
        assert(header_pairs(ins) =~= header_pairs(lines));
    }
}

/// The protocol token of a start line: everything before the first space, or
/// the whole line when it has no space.
pub open spec fn protocol_token(sl: Seq<char>) -> Seq<char> {
    let f = find_pat(sl, " "@);
    if f == -1 {
        sl
    } else {
        sl.subrange(0, f)
    }
}

/// Whether a start line carries a status-code token: it does exactly when it
/// contains a space.
pub open spec fn has_status_token(sl: Seq<char>) -> bool {
    find_pat(sl, " "@) != -1
}

/// The status-code token of a start line: the text between the first space
/// and the following space or end of line (meaningful when
/// `has_status_token` holds).
pub open spec fn status_token(sl: Seq<char>) -> Seq<char> {
    let f = find_pat(sl, " "@);
    let rest = sl.subrange(f + 1, sl.len() as int);
    let f2 = find_pat(rest, " "@);
    if f2 == -1 {
        rest
    } else {
        rest.subrange(0, f2)
    }
}

/// Whether a protocol token splits into a scheme and a version: it does
/// exactly when it contains a `/`.
pub open spec fn has_version(p: Seq<char>) -> bool {
    find_pat(p, "/"@) != -1
}

/// The scheme of a protocol token: everything before its first `/`
/// (meaningful when `has_version` holds).
pub open spec fn scheme_of(p: Seq<char>) -> Seq<char> {
    p.subrange(0, find_pat(p, "/"@))
}

/// The version of a protocol token: the text between its first `/` and the
/// following `/` or end of token (meaningful when `has_version` holds).
pub open spec fn version_of(p: Seq<char>) -> Seq<char> {
    let f = find_pat(p, "/"@);
    let rest = p.subrange(f + 1, p.len() as int);
    let f2 = find_pat(rest, "/"@);
    if f2 == -1 {
        rest
    } else {
        rest.subrange(0, f2)
    }
}

/// The rendering of a clean header holds no line terminator, and its first
/// `": "` stands right after the key.
proof fn lemma_header_text_clean(h: Header)
    requires
        key_clean(h.key@),
        clean_text(h.value@),
    ensures
        h.text().len() >= 2,
        clean_text(h.text()),
        find_pat(h.text(), header_sep()) == h.key@.len(),
{
    reveal_strlit(": ");
    let t = h.text();
    let kl = h.key@.len() as int;
    assert(header_sep().len() == 2);
    assert forall|i: int| 0 <= i < t.len() implies #[trigger] t[i] != '\r' && t[i] != '\n' by {
        if i < kl {
            assert(t[i] == h.key@[i]);
        } else if i < kl + 2 {
            assert(t[i] == header_sep()[i - kl]);
        } else {
            assert(t[i] == h.value@[i - kl - 2]);
        }
    }
    assert(t.subrange(kl, kl + header_sep().len() as int) =~= header_sep());
    assert forall|j: int| 0 <= j < kl implies #[trigger] t.subrange(j, j + header_sep().len() as int)
        != header_sep() by {
        if j + header_sep().len() <= kl {
            assert(t.subrange(j, j + header_sep().len() as int) =~= h.key@.subrange(
                j,
                j + header_sep().len() as int,
            ));
        } else {
            assert(t.subrange(j, j + header_sep().len() as int)[1] == t[j + 1]);
            assert(t[kl] == ':');
        }
    }
    lemma_find_pat_first_at(t, header_sep(), kl);
}

/// `headers_text` unrolled from the front: the first header's line, then the
/// rest.
proof fn lemma_headers_text_front(hs: Seq<Header>)
    requires
        hs.len() >= 1,
    ensures
        headers_text(hs) == hs[0].text() + crlf() + headers_text(hs.subrange(1, hs.len() as int)),
    decreases hs.len(),
{
    let rest = hs.subrange(1, hs.len() as int);
    if hs.len() == 1 {
        assert(hs.drop_last() =~= Seq::<Header>::empty());
        assert(rest =~= Seq::<Header>::empty());
        assert(headers_text(hs) =~= hs[0].text() + crlf() + headers_text(rest));
    } else {
        lemma_headers_text_front(hs.drop_last());
        assert(hs.drop_last()[0] == hs[0]);
        assert(hs.drop_last().subrange(1, hs.drop_last().len() as int) =~= rest.drop_last());
        assert(rest.last() == hs.last());
        assert(headers_text(hs) =~= hs[0].text() + crlf() + headers_text(rest));
    }
}

/// The rendered header block is the joined block followed by one line
/// terminator (and empty for no headers).
proof fn lemma_block_text(hs: Seq<Header>)
    ensures
        hs.len() == 0 ==> headers_text(hs) == Seq::<char>::empty(),
        hs.len() >= 1 ==> headers_text(hs) == block_text(hs) + crlf(),
    decreases hs.len(),
{
    if hs.len() == 0 {
    } else if hs.len() == 1 {
        reveal_with_fuel(headers_text, 2);
        assert(hs.drop_last() =~= Seq::<Header>::empty());
        assert(hs.last() == hs[0]);
        assert(headers_text(hs) =~= block_text(hs) + crlf());
    } else {
        lemma_headers_text_front(hs);
        let rest = hs.subrange(1, hs.len() as int);
        lemma_block_text(rest);
        assert(headers_text(hs) =~= block_text(hs) + crlf());
    }
}

/// The joined block of clean headers splits back into the rendered lines,
/// whose pairs are the headers' own key/value pairs; every carriage return in
/// the block starts a line terminator followed by more text.
proof fn lemma_header_block(hs: Seq<Header>)
    requires
        hs.len() >= 1,
        headers_clean(hs),
    ensures
        block_text(hs).len() >= 2,
        block_text(hs)[0] != '\r',
        forall|j: int|
            0 <= j < block_text(hs).len() && #[trigger] block_text(hs)[j] == '\r' ==> j + 4
                <= block_text(hs).len() && block_text(hs)[j + 1] == '\n' && block_text(hs)[j + 2]
                != '\r',
        split_all(block_text(hs), crlf()) == rendered_lines(hs),
        header_pairs(rendered_lines(hs)) == header_pairs_of(hs),
    decreases hs.len(),
{
    reveal_strlit("\r\n");
    reveal_strlit(": ");
    let b = block_text(hs);
    let texts = rendered_lines(hs);
    let pairs = header_pairs_of(hs);
    let h0 = hs[0];
    let t0 = h0.text();
    lemma_header_text_clean(h0);
    assert(header_pair(t0) == Some((h0.key@, h0.value@))) by {
        assert(t0.subrange(0, h0.key@.len() as int) =~= h0.key@);
        assert(t0.subrange(
            h0.key@.len() + header_sep().len() as int,
            t0.len() as int,
        ) =~= h0.value@);
    }
    if hs.len() == 1 {
        lemma_find_pat_none_of_first(b, crlf());
        assert(split_all(b, crlf()) =~~= seq![b]);
        assert(texts =~~= seq![b]);
        assert(texts.subrange(1, 1) =~~= Seq::<Seq<char>>::empty());
        reveal_with_fuel(header_pairs, 2);
        assert(header_pairs(texts) =~= pairs);
    } else {
        let rest = hs.subrange(1, hs.len() as int);
        assert(headers_clean(rest)) by {
            assert forall|k: int| #![trigger rest[k]] 0 <= k < rest.len() implies key_clean(
                rest[k].key@,
            ) && clean_text(rest[k].value@) by {
                assert(rest[k] == hs[k + 1]);
            }
        }
        lemma_header_block(rest);
        let b2 = block_text(rest);
        let tl = t0.len() as int;
        assert(b == t0 + crlf() + b2);
        assert(b[0] == t0[0]);
        assert forall|j: int|
            0 <= j < b.len() && #[trigger] b[j] == '\r' implies j + 4 <= b.len() && b[j + 1]
            == '\n' && b[j + 2] != '\r' by {
            if j < tl {
                assert(b[j] == t0[j]);
            } else if j == tl {
                assert(b[j + 1] == '\n');
                assert(b[j + 2] == b2[0]);
            } else if j == tl + 1 {
                assert(b[j] == '\n');
            } else {
                let j2 = j - tl - 2;
                assert(b[j] == b2[j2]);
                assert(b2[j2] == '\r');
                assert(b[j + 1] == b2[j2 + 1]);
                assert(b[j + 2] == b2[j2 + 2]);
            }
        }
        assert(b.subrange(tl, tl + crlf().len() as int) =~= crlf());
        assert forall|j: int| 0 <= j < tl implies #[trigger] b.subrange(j, j + crlf().len() as int)
            != crlf() by {
            assert(b.subrange(j, j + crlf().len() as int)[0] == b[j]);
            assert(b[j] == t0[j]);
        }
        lemma_find_pat_first_at(b, crlf(), tl);
        assert(b.subrange(0, tl) =~= t0);
        assert(b.subrange(tl + crlf().len(), b.len() as int) =~= b2);
        assert(split_all(b, crlf()) =~~= seq![t0] + split_all(b2, crlf()));
        assert(texts =~~= seq![t0] + rendered_lines(rest));
        assert(split_all(b, crlf()) =~~= texts);
        assert(texts.subrange(1, texts.len() as int) =~~= rendered_lines(rest));
        assert(header_pairs(texts) =~= pairs);
    }
}

/// Whether parsing wire text `t` succeeds: the start line must carry a
/// protocol with a version and a status-code token naming a supported status.
pub open spec fn parse_ok(t: Seq<char>) -> bool {
    &&& has_version(protocol_token(start_line(t)))
    &&& has_status_token(start_line(t))
    &&& status_from_code_text(status_token(start_line(t))) is Some
}

/// Serialization round trip: for a response whose scheme and version hold no
/// space, slash or line terminator, whose header keys hold no line terminator
/// and no `": "`, and whose header values hold no line terminator, parsing
/// the serialized wire text succeeds and finds the same scheme, version,
/// headers and body. The status is the one field that does not survive: the
/// status token on the wire names the serialized status, but the parser
/// discards what it decoded, so the parsed response always carries
/// `Status::OK` whatever status was serialized.
#[verifier::rlimit(50)]
pub proof fn lemma_parse_inverts_serialize(r: Response)
    requires
        clean_token(r.scheme@),
        clean_token(r.version@),
        headers_clean(r.headers@),
    ensures
        parse_ok(r.wire_text()),
        scheme_of(protocol_token(start_line(r.wire_text()))) == r.scheme@,
        version_of(protocol_token(start_line(r.wire_text()))) == r.version@,
        status_token(start_line(r.wire_text())) == code_text(r.status),
        status_from_code_text(status_token(start_line(r.wire_text()))) == Some(r.status),
        header_pairs(header_lines(r.wire_text())) == header_pairs_of(r.headers@),
        body_text(r.wire_text()) == r.content@,
{
    reveal_strlit("\r\n");
    reveal_strlit("\r\n\r\n");
    reveal_strlit(" ");
    reveal_strlit("/");
    let w = r.wire_text();
    let hs = r.headers@;
    let a = r.scheme@ + "/"@ + r.version@;
    let sw = r.status.wire_text();
    let sl = a + " "@ + sw;
    let schl = r.scheme@.len() as int;
    let al = a.len() as int;
    let sll = sl.len() as int;
    let cl = code_text(r.status).len() as int;
    lemma_status_text_clean(r.status);
    lemma_status_wire_round_trip(r.status);
    // the status line holds no line terminator
    assert forall|i: int| 0 <= i < sl.len() implies sl[i] != '\r' && sl[i] != '\n' by {
        if i < schl {
            assert(sl[i] == r.scheme@[i]);
        } else if i == schl {
            assert(sl[i] == '/');
        } else if i < al {
            assert(sl[i] == r.version@[i - schl - 1]);
        } else if i == al {
            assert(sl[i] == ' ');
        } else {
            let i2 = i - al - 1;
            assert(sl[i] == sw[i2]);
            if i2 < cl {
                assert(sw[i2] == code_text(r.status)[i2]);
            } else if i2 == cl {
                assert(sw[i2] == ' ');
            } else {
                assert(sw[i2] == r.status.message_spec()[i2 - cl - 1]);
            }
        }
    }
    // the wire text regrouped around the head/body separator
    lemma_block_text(hs);
    let p = if hs.len() == 0 {
        sl
    } else {
        sl + crlf() + block_text(hs)
    };
    assert(w =~= p + blank_line_sep() + r.content@);
    if hs.len() >= 1 {
        lemma_header_block(hs);
    }
    // the separator first occurs right after the head
    let k = p.len() as int;
    assert(w.subrange(k, k + blank_line_sep().len() as int) =~= blank_line_sep());
    assert forall|j: int| 0 <= j < k implies #[trigger] w.subrange(
        j,
        j + blank_line_sep().len() as int,
    ) != blank_line_sep() by {
        let sub = w.subrange(j, j + blank_line_sep().len() as int);
        assert(sub[0] == w[j]);
        if hs.len() == 0 {
            assert(w[j] == sl[j]);
        } else {
            let b = block_text(hs);
            if j < sll {
                assert(w[j] == sl[j]);
            } else if j == sll {
                assert(sub[2] == w[j + 2]);
                assert(w[j + 2] == b[0]);
            } else if j == sll + 1 {
                assert(w[j] == '\n');
            } else {
                let j2 = j - sll - 2;
                assert(w[j] == b[j2]);
                if b[j2] == '\r' {
                    assert(sub[2] == w[j + 2]);
                    assert(w[j + 2] == b[j2 + 2]);
                }
            }
        }
    }
    lemma_find_pat_first_at(w, blank_line_sep(), k);
    assert(head_text(w) =~= p);
    assert(body_text(w) =~= r.content@);
    // the start line is the first head line; the block lines follow
    if hs.len() == 0 {
        lemma_find_pat_none_of_first(sl, crlf());
        assert(head_lines(w) =~~= seq![sl]);
        assert(start_line(w) == sl);
        assert(header_lines(w) =~~= Seq::<Seq<char>>::empty());
        assert(header_pairs(header_lines(w)) =~= header_pairs_of(hs));
    } else {
        let b = block_text(hs);
        assert(p.subrange(sll, sll + crlf().len() as int) =~= crlf());
        assert forall|j: int| 0 <= j < sll implies #[trigger] p.subrange(
            j,
            j + crlf().len() as int,
        ) != crlf() by {
            assert(p.subrange(j, j + crlf().len() as int)[0] == p[j]);
            assert(p[j] == sl[j]);
        }
        lemma_find_pat_first_at(p, crlf(), sll);
        assert(p.subrange(0, sll) =~= sl);
        assert(p.subrange(sll + crlf().len(), p.len() as int) =~= b);
        assert(head_lines(w) =~~= seq![sl] + split_all(b, crlf()));
        assert(start_line(w) == sl);
        assert(header_lines(w) =~~= split_all(b, crlf()));
        assert(header_pairs(header_lines(w)) == header_pairs_of(hs));
    }
    // the first space of the status line ends the protocol token
    assert forall|i: int| 0 <= i < a.len() implies a[i] != ' ' by {
        if i < schl {
            assert(a[i] == r.scheme@[i]);
        } else if i == schl {
            assert(a[i] == '/');
        } else {
            assert(a[i] == r.version@[i - schl - 1]);
        }
    }
    lemma_find_single_after(a, " "@, sw);
    assert(protocol_token(sl) =~= a);
    // the protocol token splits into the scheme and the version
    lemma_find_single_after(r.scheme@, "/"@, r.version@);
    assert(scheme_of(a) =~= r.scheme@);
    assert(a.subrange(schl + 1, al) =~= r.version@);
    lemma_find_pat_none_of_first(r.version@, "/"@);
    assert(version_of(a) =~= r.version@);
    // the status token is the code string of the serialized status
    assert(sl.subrange(al + 1, sll) =~= sw);
    assert(status_token(sl) == sw.subrange(0, cl));
}

/// An HTTP response message.
#[derive(Debug, PartialEq, Clone)]
pub struct Response {
    pub scheme: String,
    pub version: String,
    pub status: Status,
    pub headers: Vec<Header>,
    pub content: String,
}

/// Whether `r` is exactly the response that the body-and-content-type factory
/// builds: default scheme, version and status, body `body` of `blen` bytes, a
/// `Content-Type` header, then a `Content-Length` header.
pub open spec fn built_with_content(r: Response, body: Seq<char>, blen: nat, ctype: Seq<char>) -> bool {
    &&& r.scheme@ == "HTTP"@
    &&& r.version@ == "1.1"@
    &&& r.status == Status::OK
    &&& r.content@ == body
    &&& r.headers@.len() == 2
    &&& r.headers@[0].key@ == "Content-Type"@
    &&& r.headers@[0].value@ == ctype
    &&& r.headers@[1].key@ == "Content-Length"@
    &&& r.headers@[1].value@ == dec_str(blen)
}

impl Response {
    /// The full wire text of the response: the status line, the header block,
    /// a blank line, then the body, with CRLF line terminators and no
    /// terminator after the body.
    pub open spec fn wire_text(self) -> Seq<char> {
        self.scheme@ + "/"@ + self.version@ + " "@ + self.status.wire_text() + crlf()
            + headers_text(self.headers@) + crlf() + self.content@
    }

    /// Create a new http response with no body.
    pub fn empty() -> (r: Response)
        ensures
            r.scheme@ == "HTTP"@,
            r.version@ == "1.1"@,
            r.status == Status::OK,
            r.headers@ == Seq::<Header>::empty(),
            r.content@ == Seq::<char>::empty(),
    {
        let headers: Vec<Header> = Vec::new();
        proof {
            assert(headers@ =~= Seq::<Header>::empty());
        }
        Response {
            scheme: "HTTP".to_owned(),
            version: "1.1".to_owned(),
            status: Status::OK,
            headers,
            content: String::new(),
        }
    }

    /// Create a new http response with a given body. Does not set the
    /// `Content-Type` or `Content-Length` header.
    pub fn body(content: &str) -> (r: Response)
        ensures
            r.scheme@ == "HTTP"@,
            r.version@ == "1.1"@,
            r.status == Status::OK,
            r.headers@ == Seq::<Header>::empty(),
            r.content@ == content@,
    {
        let headers: Vec<Header> = Vec::new();
        proof {
            assert(headers@ =~= Seq::<Header>::empty());
        }
        Response {
            scheme: "HTTP".to_owned(),
            version: "1.1".to_owned(),
            status: Status::OK,
            headers,
            content: content.to_owned(),
        }
    }

    /// Create a new http response with a given body and content type. Sets
    /// the `Content-Type` header to the content type provided, and
    /// automatically sets the `Content-Length` header to the byte length of
    /// the provided content.
    pub fn content(content: &str, content_type: &str) -> (r: Response)
        ensures
            built_with_content(r, content@, str_byte_len(content), content_type@),
    {
        let content_length = content.len();
        Self::body(content)
            .header(Header::new("Content-Type", content_type))
            .header(Header::new("Content-Length", u64_to_string(content_length as u64).as_str()))
    }

    /// Create a `html` http response. This method is the same as
    /// [`Response::content`], but it fixes the `Content-Type: text/html`
    /// header.
    pub fn html(content: &str) -> (r: Response)
        ensures
            built_with_content(r, content@, str_byte_len(content), "text/html"@),
    {
        Self::content(content, "text/html")
    }

    /// Create a `json` http response. This method is the same as
    /// [`Response::content`], but it fixes the
    /// `Content-Type: application/json` header.
    pub fn json(content: &str) -> (r: Response)
        ensures
            built_with_content(r, content@, str_byte_len(content), "application/json"@),
    {
        Self::content(content, "application/json")
    }

    /// Add a `Set-Cookie` header to the http response.
    pub fn cookie(self, content: &str) -> (r: Response)
        ensures
            r.scheme@ == self.scheme@,
            r.version@ == self.version@,
            r.status == self.status,
            r.content@ == self.content@,
            r.headers@.len() == self.headers@.len() + 1,
            r.headers@.drop_last() == self.headers@,
            r.headers@.last().key@ == "Set-Cookie"@,
            r.headers@.last().value@ == content@,
    {
        self.header(Header::new("Set-Cookie", content))
    }

    /// Set the status of the http response; every other field is kept.
    pub fn status(self, status: Status) -> (r: Response)
        ensures
            r.scheme@ == self.scheme@,
            r.version@ == self.version@,
            r.status == status,
            r.headers@ == self.headers@,
            r.content@ == self.content@,
    {
        Response {
            scheme: self.scheme,
            version: self.version,
            status,
            headers: self.headers,
            content: self.content,
        }
    }

    /// Append one header to the end of the header list; existing headers are
    /// never searched, replaced, or reordered, so duplicate keys are kept.
    pub fn header(self, header: Header) -> (r: Response)
        ensures
            r.scheme@ == self.scheme@,
            r.version@ == self.version@,
            r.status == self.status,
            r.headers@ == self.headers@.push(header),
            r.content@ == self.content@,
    {
        let mut headers = self.headers;
        headers.push(header);
        Response {
            scheme: self.scheme,
            version: self.version,
            status: self.status,
            headers,
            content: self.content,
        }
    }

    fn parse_protocol(line: &str) -> (r: Result<(&str, &str), Error>)
        ensures
            (match r {
                Ok(p) => {
                    &&& has_version(line@)
                    &&& p.0@ == scheme_of(line@)
                    &&& p.1@ == version_of(line@)
                },
                Err(e) => {
                    &&& !has_version(line@)
                    &&& e.err_type == ErrorType::ParserError
                    &&& e.msg@ == "Invalid protocol format"@
                },
            }),
    {
        proof {
            reveal_strlit("/");
        }
        let llen = line.unicode_len();
        match find(line, "/") {
            None => Err(Error {
                err_type: ErrorType::ParserError,
                msg: "Invalid protocol format".to_owned(),
            }),
            Some(i) => {
                let scheme = line.substring_char(0, i);
                let rest = line.substring_char(i + 1, llen);
                let version = match find(rest, "/") {
                    None => rest,
                    Some(j) => rest.substring_char(0, j),
                };
                Ok((scheme, version))
            },
        }
    }

    fn parse_header(line: &str) -> (r: Result<Header, Error>)
        ensures
            (match r {
                Ok(h) => header_pair(line@) == Some((h.key@, h.value@)),
                Err(e) => {
                    &&& header_pair(line@) is None
                    &&& e.err_type == ErrorType::ParserError
                    &&& e.msg@ == "Invalid header format"@
                },
            }),
    {
        proof {
            reveal_strlit(": ");
        }
        let llen = line.unicode_len();
        match find(line, ": ") {
            None => Err(Error {
                err_type: ErrorType::ParserError,
                msg: "Invalid header format".to_owned(),
            }),
            Some(i) => {
                let key = line.substring_char(0, i);
                let value = line.substring_char(i + 2, llen);
                Ok(Header::new(key, value))
            },
        }
    }

    fn collect_headers(block: &str) -> (hs: Vec<Header>)
        ensures
            header_pairs_of(hs@) == header_pairs(split_all(block@, crlf())),
        decreases block@.len(),
    {
        proof {
            reveal_strlit("\r\n");
        }
        let blen = block.unicode_len();
        match find(block, "\r\n") {
            None => {
                let mut hs: Vec<Header> = Vec::new();
                match Self::parse_header(block) {
                    Ok(h) => {
                        hs.push(h);
                        proof {
                            reveal_with_fuel(header_pairs, 3);
                            assert(split_all(block@, crlf()) =~~= seq![block@]);
                            assert(seq![block@].subrange(1, 1) =~~= Seq::<Seq<char>>::empty());
                            assert(header_pairs(seq![block@]) =~= seq![(h.key@, h.value@)]
                                + header_pairs(seq![block@].subrange(1, 1)));
                            assert(header_pairs(seq![block@]) =~= seq![(h.key@, h.value@)]);
                            assert(hs@ =~= seq![h]);
                            assert(header_pairs_of(hs@) =~= header_pairs(
                                split_all(block@, crlf()),
                            ));
                        }
                    },
                    Err(_) => {
                        proof {
                            reveal_with_fuel(header_pairs, 3);
                            assert(split_all(block@, crlf()) =~~= seq![block@]);
                            assert(seq![block@].subrange(1, 1) =~~= Seq::<Seq<char>>::empty());
                            assert(header_pairs(seq![block@])
                                =~= header_pairs(seq![block@].subrange(1, 1)));
                            assert(header_pairs_of(hs@) =~= header_pairs(
                                split_all(block@, crlf()),
                            ));
                        }
                    },
                }
                hs
            },
            Some(i) => {
                let line = block.substring_char(0, i);
                let rest = block.substring_char(i + 2, blen);
                let mut hs = Self::collect_headers(rest);
                proof {
                    assert(split_all(block@, crlf()) =~~= seq![line@] + split_all(
                        rest@,
                        crlf(),
                    ));
                    assert((seq![line@] + split_all(rest@, crlf())).subrange(
                        1,
                        (seq![line@] + split_all(rest@, crlf())).len() as int,
                    ) =~~= split_all(rest@, crlf()));
                }
                match Self::parse_header(line) {
                    Ok(h) => {
                        hs.insert(0, h);
                        proof {
                            assert(header_pairs_of(hs@) =~= header_pairs(
                                split_all(block@, crlf()),
                            ));
                        }
                    },
                    Err(_) => {
                        proof {
                            assert(header_pairs_of(hs@) =~= header_pairs(
                                split_all(block@, crlf()),
                            ));
                        }
                    },
                }
                hs
            },
        }
    }

    /// Parse a response from wire text. The parser is forgiving: a header
    /// line without the `": "` separator is silently dropped rather than
    /// failing the whole parse. The parse fails only when the start line has
    /// no space-separated status token, the protocol token has no `/`, or the
    /// status token is not the code of a supported status. The status of a
    /// successfully parsed response is always `Status::OK`, whatever status
    /// code stood on the wire (the decoded status is checked, then
    /// discarded).
    pub fn parse(buffer: &str) -> (r: Result<Response, Error>)
        ensures
            (match r {
                Ok(resp) => {
                    &&& parse_ok(buffer@)
                    &&& resp.scheme@ == scheme_of(protocol_token(start_line(buffer@)))
                    &&& resp.version@ == version_of(protocol_token(start_line(buffer@)))
                    &&& resp.status == Status::OK
                    &&& header_pairs_of(resp.headers@) == header_pairs(header_lines(buffer@))
                    &&& resp.content@ == body_text(buffer@)
                },
                Err(e) => {
                    &&& !parse_ok(buffer@)
                    &&& e.err_type == ErrorType::ParserError
                    &&& (if has_version(protocol_token(start_line(buffer@))) {
                        e.msg@ == "Invalid response format"@
                    } else {
                        e.msg@ == "Invalid protocol format"@
                    })
                },
            }),
    {
        proof {
            reveal_strlit("\r\n\r\n");
            reveal_strlit("\r\n");
            reveal_strlit(" ");
        }
        let blen = buffer.unicode_len();
        let (head, body) = match find(buffer, "\r\n\r\n") {
            Some(i) => (buffer.substring_char(0, i), buffer.substring_char(i + 4, blen)),
            None => (buffer, ""),
        };
        proof {
            if find_pat(buffer@, blank_line_sep()) == -1 {
                reveal_strlit("");
                assert(""@ =~= Seq::<char>::empty());
            }
            assert(head@ == head_text(buffer@));
            assert(body@ == body_text(buffer@));
        }
        let hlen = head.unicode_len();
        let (sline, hblock) = match find(head, "\r\n") {
            Some(i) => (head.substring_char(0, i), Some(head.substring_char(i + 2, hlen))),
            None => (head, None),
        };
        proof {
            match hblock {
                Some(b) => {
                    assert(head_lines(buffer@) =~~= seq![sline@] + split_all(b@, crlf()));
                    assert(header_lines(buffer@) =~~= split_all(b@, crlf()));
                },
                None => {
                    assert(head_lines(buffer@) =~~= seq![sline@]);
                    assert(header_lines(buffer@) =~~= Seq::<Seq<char>>::empty());
                },
            }
            assert(sline@ == start_line(buffer@));
        }
        let sllen = sline.unicode_len();
        let sp = find(sline, " ");
        let protocol = match sp {
            Some(i) => sline.substring_char(0, i),
            None => sline,
        };
        proof {
            assert(protocol@ == protocol_token(start_line(buffer@)));
        }
        let (scheme, version) = match Self::parse_protocol(protocol) {
            Ok(p) => p,
            Err(e) => {
                return Err(e);
            },
        };
        let status_code = match sp {
            Some(i) => {
                let rest = sline.substring_char(i + 1, sllen);
                match find(rest, " ") {
                    Some(j) => rest.substring_char(0, j),
                    None => rest,
                }
            },
            None => {
                return Err(Error {
                    err_type: ErrorType::ParserError,
                    msg: "Invalid response format".to_owned(),
                });
            },
        };
        proof {
            assert(status_code@ == status_token(start_line(buffer@)));
        }
        match Status::from_str(status_code) {
            Ok(_) => {},
            Err(_) => {
                return Err(Error {
                    err_type: ErrorType::ParserError,
                    msg: "Invalid response format".to_owned(),
                });
            },
        }
        let headers = match hblock {
            Some(b) => Self::collect_headers(b),
            None => {
                let hs: Vec<Header> = Vec::new();
                proof {
                    assert(header_pairs_of(hs@) =~= header_pairs(header_lines(buffer@)));
                }
                hs
            },
        };
        Ok(Response {
            scheme: scheme.to_owned(),
            version: version.to_owned(),
            status: Status::OK,
            headers,
            content: body.to_owned(),
        })
    }

    /// Convert the `Response` to a valid http plaintext response.
    pub fn to_string(&self) -> (r: String)
        ensures
            r@ == self.wire_text(),
    {
        let mut out = self.scheme.clone();
        out.append("/");
        out.append(self.version.as_str());
        out.append(" ");
        let status_text = self.status.to_string();
        out.append(status_text.as_str());
        out.append("\r\n");
        let ghost start_prefix = self.scheme@ + "/"@ + self.version@ + " "@
            + self.status.wire_text() + crlf();
        proof {
            assert(out@ =~= start_prefix);
            assert(out@ =~= start_prefix + headers_text(self.headers@.take(0)));
        }
        let mut i: usize = 0;
        while i < self.headers.len()
            invariant
                i <= self.headers@.len(),
                out@ == start_prefix + headers_text(self.headers@.take(i as int)),
            decreases self.headers@.len() - i,
        {
            let h = &self.headers[i];
            out.append(h.key.as_str());
            out.append(": ");
            out.append(h.value.as_str());
            out.append("\r\n");
            proof {
                let taken = self.headers@.take(i as int + 1);
                assert(taken.drop_last() =~= self.headers@.take(i as int));
                assert(taken.last() == self.headers@[i as int]);
                assert(out@ =~= start_prefix + headers_text(taken));
            }
            i = i + 1;
        }
        out.append("\r\n");
        out.append(self.content.as_str());
        proof {
            assert(self.headers@.take(self.headers@.len() as int) =~= self.headers@);
            assert(out@ =~= self.wire_text());
        }
        out
    }
}

} // verus!

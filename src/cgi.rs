//! Parsing of the output of a CGI program: the header block (status line and response
//! headers) and the body that follows it.
use vstd::prelude::*;
use vstd::utf8::*;
use crate::error::Error;
use crate::text::{
    chars_of, is_space, is_space_char, lower_of, substring, to_lower, trim, trim_bounds,
    utf8_decode, utf8_lossy, utf8_lossy_of,
};

verus! {

/// Largest CGI header block accepted, in bytes.
pub const MAX_CGI_HEADER_SIZE: usize = 16384;

/// Header entries as (key, value) pairs.
pub type EntriesView = Seq<(Seq<char>, Seq<char>)>;

/// No key occurs twice.
pub open spec fn keys_unique(e: EntriesView) -> bool {
    forall|i: int, j: int| 0 <= i < j < e.len() ==> e[i].0 != e[j].0
}

/// Whether `k` is a key of `e`.
pub open spec fn has_key(e: EntriesView, k: Seq<char>) -> bool {
    exists|i: int| 0 <= i < e.len() && e[i].0 == k
}

/// The value of `k` in `e`, if `k` is a key.
pub open spec fn lookup(e: EntriesView, k: Seq<char>) -> Option<Seq<char>> {
    if has_key(e, k) {
        Some(e[choose|i: int| 0 <= i < e.len() && e[i].0 == k].1)
    } else {
        None
    }
}

/// `e` with `k` set to `v`: an existing entry is replaced in place, a new one goes last.
pub open spec fn upsert(e: EntriesView, k: Seq<char>, v: Seq<char>) -> EntriesView {
    if has_key(e, k) {
        e.update(choose|i: int| 0 <= i < e.len() && e[i].0 == k, (k, v))
    } else {
        e.push((k, v))
    }
}

/// Response headers of a CGI program, keys lowercased, each key once.
#[derive(Clone, Debug)]
pub struct CgiHeaderMap {
    entries: Vec<(String, String)>,
}

impl View for CgiHeaderMap {
    type V = EntriesView;

    closed spec fn view(&self) -> EntriesView {
        self.entries@.map_values(|e: (String, String)| (e.0@, e.1@))
    }
}

impl CgiHeaderMap {
    pub open spec fn wf(&self) -> bool {
        keys_unique(self@)
    }

    pub fn new() -> (r: Self)
        ensures
            r@ == Seq::<(Seq<char>, Seq<char>)>::empty(),
            r.wf(),
    {
        let r = CgiHeaderMap { entries: Vec::new() };
        assert(r@ =~= Seq::<(Seq<char>, Seq<char>)>::empty());
        r
    }

    fn index_of(&self, key: &str) -> (r: Option<usize>)
        requires
            self.wf(),
        ensures
            match r {
                Some(i) => i < self@.len() && self@[i as int].0 == key@,
                None => !has_key(self@, key@),
            },
    {
        let mut i: usize = 0;
        while i < self.entries.len()
            invariant
                i <= self@.len(),
                self@.len() == self.entries@.len(),
                forall|k: int| 0 <= k < i ==> self@[k].0 != key@,
            decreases self.entries@.len() - i,
        {
            if crate::text::str_eq(self.entries[i].0.as_str(), key) {
                return Some(i);
            }
            i = i + 1;
        }
        None
    }

    /// The value of `key`, if present.
    pub fn get(&self, key: &str) -> (r: Option<&String>)
        requires
            self.wf(),
        ensures
            r is Some <==> has_key(self@, key@),
            r is Some ==> Some(r->0@) == lookup(self@, key@),
    {
        match self.index_of(key) {
            Some(i) => Some(&self.entries[i].1),
            None => None,
        }
    }

    /// Number of headers.
    pub fn len(&self) -> (r: usize)
        ensures
            r == self@.len(),
    {
        self.entries.len()
    }

    /// The headers as (key, value) pairs.
    pub fn entries(&self) -> (r: &Vec<(String, String)>)
        ensures
            r@.map_values(|e: (String, String)| (e.0@, e.1@)) == self@,
    {
        &self.entries
    }

    /// Set `key` to `value`.
    pub fn insert(&mut self, key: String, value: String)
        requires
            old(self).wf(),
        ensures
            final(self).wf(),
            final(self)@ == upsert(old(self)@, key@, value@),
    {
        let ghost k = key@;
        let ghost v = value@;
        match self.index_of(key.as_str()) {
            Some(i) => {
                self.entries.set(i, (key, value));
                proof {
                    let j = choose|j: int| 0 <= j < old(self)@.len() && old(self)@[j].0 == k;
                    assert(j == i);
                    assert(self@ =~= upsert(old(self)@, k, v));
                }
            },
            None => {
                self.entries.push((key, value));
                assert(self@ =~= upsert(old(self)@, k, v));
            },
        }
    }
}

/// The status and headers of a CGI response.
#[derive(Clone, Debug)]
pub struct GitCgiHeaders {
    /// HTTP status code (from the CGI `Status` header, 200 by default).
    pub status: u16,
    /// Response headers, keys lowercased.
    pub headers: CgiHeaderMap,
}

/// A whole CGI response held in memory.
#[derive(Clone, Debug)]
pub struct GitCgiResponse {
    pub status: u16,
    pub headers: CgiHeaderMap,
    pub body: Vec<u8>,
}

/// The index of the first `c` in `s`, or its length.
pub open spec fn index_of_char(s: Seq<char>, c: char) -> int
    decreases s.len(),
{
    if s.len() == 0 {
        0
    } else if s[0] == c {
        0
    } else {
        1 + index_of_char(s.drop_first(), c)
    }
}

pub proof fn lemma_index_of_char(s: Seq<char>, c: char, i: int)
    requires
        0 <= i <= s.len(),
        forall|k: int| 0 <= k < i ==> #[trigger] s[k] != c,
        i == s.len() || s[i] == c,
    ensures
        index_of_char(s, c) == i,
    decreases i,
{
    if i > 0 {
        let t = s.drop_first();
        assert forall|k: int| 0 <= k < i - 1 implies #[trigger] t[k] != c by {
            assert(t[k] == s[k + 1]);
        }
        lemma_index_of_char(t, c, i - 1);
    }
}

/// The index of the first whitespace character of `s`, or its length.
pub open spec fn index_of_space(s: Seq<char>) -> int
    decreases s.len(),
{
    if s.len() == 0 {
        0
    } else if is_space(s[0]) {
        0
    } else {
        1 + index_of_space(s.drop_first())
    }
}

proof fn lemma_index_of_space(s: Seq<char>, i: int)
    requires
        0 <= i <= s.len(),
        forall|k: int| 0 <= k < i ==> !is_space(#[trigger] s[k]),
        i == s.len() || is_space(s[i]),
    ensures
        index_of_space(s) == i,
    decreases i,
{
    if i > 0 {
        let t = s.drop_first();
        assert forall|k: int| 0 <= k < i - 1 implies !is_space(#[trigger] t[k]) by {
            assert(t[k] == s[k + 1]);
        }
        lemma_index_of_space(t, i - 1);
    }
}

pub open spec fn is_digit(c: char) -> bool {
    '0' <= c && c <= '9'
}

/// The number that a sequence of decimal digits writes.
pub open spec fn digits_value(t: Seq<char>) -> int
    decreases t.len(),
{
    if t.len() == 0 {
        0
    } else {
        digits_value(t.drop_last()) * 10 + (t.last() as int - '0' as int)
    }
}

/// `t` without one leading `+`.
pub open spec fn parse_u16_input(t: Seq<char>) -> Seq<char> {
    if t.len() > 0 && t[0] == '+' {
        t.drop_first()
    } else {
        t
    }
}

/// What `u16::from_str` gives: an optional `+`, then one or more decimal digits whose
/// value fits in 16 bits.
pub open spec fn parse_u16_spec(t: Seq<char>) -> Option<u16> {
    let d = parse_u16_input(t);
    if d.len() > 0 && (forall|i: int| 0 <= i < d.len() ==> is_digit(#[trigger] d[i]))
        && digits_value(d) <= 65535 {
        Some(digits_value(d) as u16)
    } else {
        None
    }
}

proof fn lemma_digits_value_prefix(t: Seq<char>, i: int)
    requires
        0 <= i <= t.len(),
        forall|k: int| 0 <= k < t.len() ==> is_digit(#[trigger] t[k]),
    ensures
        digits_value(t.subrange(0, i)) <= digits_value(t),
        0 <= digits_value(t.subrange(0, i)),
    decreases t.len() - i,
{
    if i < t.len() {
        let u = t.subrange(0, i + 1);
        assert(u.drop_last() =~= t.subrange(0, i));
        lemma_digits_value_prefix(t, i + 1);
        assert(is_digit(u.last()));
    } else {
        assert(t.subrange(0, i) =~= t);
        lemma_digits_value_nonneg(t);
    }
}

proof fn lemma_digits_value_nonneg(t: Seq<char>)
    requires
        forall|k: int| 0 <= k < t.len() ==> is_digit(#[trigger] t[k]),
    ensures
        0 <= digits_value(t),
    decreases t.len(),
{
    if t.len() > 0 {
        let u = t.drop_last();
        assert forall|k: int| 0 <= k < u.len() implies is_digit(#[trigger] u[k]) by {
            assert(u[k] == t[k]);
        }
        lemma_digits_value_nonneg(u);
        assert(is_digit(t[t.len() - 1]));
    }
}

/// Parse `s[from..to]` as `u16::from_str` does.
pub fn parse_u16(s: &Vec<char>, from: usize, to: usize) -> (r: Option<u16>)
    requires
        from <= to <= s@.len(),
    ensures
        r == parse_u16_spec(s@.subrange(from as int, to as int)),
{
    let ghost t = s@.subrange(from as int, to as int);
    let mut start = from;
    if start < to && s[start] == '+' {
        start = start + 1;
    }
    let ghost d = s@.subrange(start as int, to as int);
    proof {
        if t.len() > 0 {
            assert(t[0] == s@[from as int]);
        }
        if t.len() > 0 && t[0] == '+' {
            assert(d =~= t.drop_first());
        } else {
            assert(d =~= t);
        }
    }
    if start == to {
        return None;
    }
    let mut i = start;
    while i < to
        invariant
            start <= i <= to <= s@.len(),
            d == s@.subrange(start as int, to as int),
            d == parse_u16_input(t),
            t == s@.subrange(from as int, to as int),
            forall|k: int| start <= k < i ==> is_digit(#[trigger] s@[k]),
        decreases to - i,
    {
        if !('0' <= s[i] && s[i] <= '9') {
            assert(d[i - start] == s@[i as int]);
            assert(!is_digit(d[i - start]));
            assert(parse_u16_input(t) == d);
            assert(!(forall|k: int| 0 <= k < d.len() ==> is_digit(#[trigger] d[k])));
            return None;
        }
        i = i + 1;
    }
    assert forall|k: int| 0 <= k < d.len() implies is_digit(#[trigger] d[k]) by {
        assert(d[k] == s@[k + start]);
    }
    let mut acc: u32 = 0;
    let mut j = start;
    while j < to
        invariant
            start <= j <= to <= s@.len(),
            d == s@.subrange(start as int, to as int),
            forall|k: int| 0 <= k < d.len() ==> is_digit(#[trigger] d[k]),
            d == parse_u16_input(t),
            t == s@.subrange(from as int, to as int),
            acc as int == digits_value(d.subrange(0, j - start)),
            acc <= 65535,
        decreases to - j,
    {
        let ghost p = d.subrange(0, j - start + 1);
        assert(p.drop_last() =~= d.subrange(0, j - start));
        assert(p.last() == s@[j as int]);
        let digit = (s[j] as u32) - ('0' as u32);
        assert(is_digit(d[j - start]));
        let next = acc * 10 + digit;
        assert(digits_value(p) == digits_value(p.drop_last()) * 10 + (p.last() as int - '0' as int));
        assert(next as int == digits_value(p));
        assert(p == d.subrange(0, j - start + 1));
        if next > 65535 {
            proof {
                lemma_digits_value_prefix(d, j - start + 1);
            }
            return None;
        }
        acc = next;
        j = j + 1;
    }
    assert(d.subrange(0, d.len() as int) =~= d);
    Some(acc as u16)
}

/// The characters of the header key `status`.
pub open spec fn status_key() -> Seq<char> {
    seq!['s', 't', 'a', 't', 'u', 's']
}

/// The status code that a `Status` header value gives: its first whitespace-separated
/// word, read as a `u16`.
pub open spec fn status_code(v: Seq<char>) -> Option<u16> {
    parse_u16_spec(v.subrange(0, index_of_space(v)))
}

/// The parsed state of a header block: status code and entries.
pub type HeadView = (u16, EntriesView);

/// The effect of one header line (without its line ending) on the parsed state: a
/// `Key: Value` line sets a header (key trimmed and lowercased, value trimmed), except that
/// a `Status` line with a numeric first word sets the status; other lines change nothing.
pub open spec fn apply_line(st: HeadView, l: Seq<char>) -> HeadView {
    let c = index_of_char(l, ':');
    if c >= l.len() {
        st
    } else {
        let key = lower_of(trim(l.subrange(0, c)));
        let value = trim(l.subrange(c + 1, l.len() as int));
        if key == status_key() && status_code(value) is Some {
            (status_code(value)->0, st.1)
        } else {
            (st.0, upsert(st.1, key, value))
        }
    }
}

/// Read one header line `cs[from..to]` into `status` and `headers`.
pub(crate) fn read_header_line(
    text: &str,
    cs: &Vec<char>,
    from: usize,
    to: usize,
    status: &mut u16,
    headers: &mut CgiHeaderMap,
)
    requires
        cs@ == text@,
        from <= to <= cs@.len(),
        old(headers).wf(),
    ensures
        final(headers).wf(),
        (*final(status), final(headers)@) == apply_line(
            (*old(status), old(headers)@),
            cs@.subrange(from as int, to as int),
        ),
{
    let ghost l = cs@.subrange(from as int, to as int);
    let mut c = from;
    while c < to && cs[c] != ':'
        invariant
            from <= c <= to <= cs@.len(),
            forall|k: int| from <= k < c ==> cs@[k] != ':',
        decreases to - c,
    {
        c = c + 1;
    }
    proof {
        assert forall|k: int| 0 <= k < c - from implies #[trigger] l[k] != ':' by {
            assert(l[k] == cs@[k + from]);
        }
        lemma_index_of_char(l, ':', c - from);
    }
    if c == to {
        return;
    }
    let (ks, ke) = trim_bounds(cs, from, c);
    let (vs, ve) = trim_bounds(cs, c + 1, to);
    proof {
        assert(l.subrange(0, c - from) =~= cs@.subrange(from as int, c as int));
        assert(l.subrange(c - from + 1, l.len() as int) =~= cs@.subrange(c + 1, to as int));
    }
    let raw_key = substring(text, ks, ke);
    let key = to_lower(raw_key.as_str());
    let value = substring(text, vs, ve);
    let kc = chars_of(key.as_str());
    let is_status = kc.len() == 6 && kc[0] == 's' && kc[1] == 't' && kc[2] == 'a' && kc[3] == 't'
        && kc[4] == 'u' && kc[5] == 's';
    assert(is_status ==> kc@ =~= status_key());
    assert(kc@ =~= status_key() ==> is_status);
    if is_status {
        let mut w = vs;
        while w < ve && !is_space_char(cs[w])
            invariant
                vs <= w <= ve <= cs@.len(),
                forall|k: int| vs <= k < w ==> !is_space(#[trigger] cs@[k]),
            decreases ve - w,
        {
            w = w + 1;
        }
        let ghost v = cs@.subrange(vs as int, ve as int);
        proof {
            assert forall|k: int| 0 <= k < w - vs implies !is_space(#[trigger] v[k]) by {
                assert(v[k] == cs@[k + vs]);
            }
            lemma_index_of_space(v, w - vs);
            assert(v.subrange(0, w - vs) =~= cs@.subrange(vs as int, w as int));
        }
        match parse_u16(cs, vs, w) {
            Some(code) => {
                *status = code;
                return;
            },
            None => {},
        }
    }
    headers.insert(key, value);
}

/// The lines of `s`: split at each `\n`, with a `\r` before the `\n` dropped.
pub open spec fn text_lines(s: Seq<char>) -> Seq<Seq<char>>
    decreases s.len(),
{
    if s.len() == 0 {
        Seq::empty()
    } else {
        let i = index_of_char(s, '\n');
        if i < 0 || i >= s.len() {
            seq![s]
        } else {
            let line = if i > 0 && s[i - 1] == '\r' {
                s.subrange(0, i - 1)
            } else {
                s.subrange(0, i)
            };
            seq![line] + text_lines(s.subrange(i + 1, s.len() as int))
        }
    }
}

/// The state after applying each line in turn.
pub open spec fn apply_lines(st: HeadView, lines: Seq<Seq<char>>) -> HeadView
    decreases lines.len(),
{
    if lines.len() == 0 {
        st
    } else {
        apply_lines(apply_line(st, lines[0]), lines.drop_first())
    }
}

pub proof fn lemma_index_of_char_bound(s: Seq<char>, c: char)
    ensures
        0 <= index_of_char(s, c) <= s.len(),
        index_of_char(s, c) < s.len() ==> s[index_of_char(s, c)] == c,
        forall|k: int| 0 <= k < index_of_char(s, c) ==> #[trigger] s[k] != c,
    decreases s.len(),
{
    if s.len() > 0 && s[0] != c {
        let t = s.drop_first();
        lemma_index_of_char_bound(t, c);
        assert forall|k: int| 0 <= k < index_of_char(s, c) implies #[trigger] s[k] != c by {
            if k > 0 {
                assert(s[k] == t[k - 1]);
            }
        }
    }
}

/// Apply the lines of `cs[from..]` in turn.
fn read_header_text(text: &str, cs: &Vec<char>, status: &mut u16, headers: &mut CgiHeaderMap)
    requires
        cs@ == text@,
        old(headers).wf(),
    ensures
        final(headers).wf(),
        (*final(status), final(headers)@) == apply_lines(
            (*old(status), old(headers)@),
            text_lines(cs@),
        ),
{
    let n = cs.len();
    let mut pos: usize = 0;
    assert(cs@.subrange(0, n as int) =~= cs@);
    while pos < n
        invariant
            cs@ == text@,
            n == cs@.len(),
            pos <= n,
            headers.wf(),
            apply_lines((*old(status), old(headers)@), text_lines(cs@)) == apply_lines(
                (*status, headers@),
                text_lines(cs@.subrange(pos as int, n as int)),
            ),
        decreases n - pos,
    {
        let ghost rest = cs@.subrange(pos as int, n as int);
        let mut e = pos;
        while e < n && cs[e] != '\n'
            invariant
                pos <= e <= n == cs@.len(),
                forall|k: int| pos <= k < e ==> cs@[k] != '\n',
            decreases n - e,
        {
            e = e + 1;
        }
        proof {
            assert forall|k: int| 0 <= k < e - pos implies #[trigger] rest[k] != '\n' by {
                assert(rest[k] == cs@[k + pos]);
            }
            lemma_index_of_char(rest, '\n', e - pos);
        }
        let ghost before = (*status, headers@);
        if e == n {
            read_header_line(text, cs, pos, e, status, headers);
            proof {
                assert(rest.subrange(0, rest.len() as int) =~= rest);
                assert(text_lines(rest) == seq![rest]);
                assert(seq![rest].drop_first() =~= Seq::<Seq<char>>::empty());
                assert(cs@.subrange(n as int, n as int) =~= Seq::<char>::empty());
                assert(rest == cs@.subrange(pos as int, e as int));
            }
            pos = n;
        } else {
            let line_end = if e > pos && cs[e - 1] == '\r' {
                e - 1
            } else {
                e
            };
            read_header_line(text, cs, pos, line_end, status, headers);
            proof {
                let line = cs@.subrange(pos as int, line_end as int);
                let i = e - pos;
                if i > 0 && rest[i - 1] == '\r' {
                    assert(rest.subrange(0, i - 1) =~= line);
                } else {
                    assert(rest.subrange(0, i) =~= line);
                }
                assert(rest.subrange(i + 1, rest.len() as int) =~= cs@.subrange(
                    e + 1,
                    n as int,
                ));
                let tail = text_lines(cs@.subrange(e + 1, n as int));
                assert(text_lines(rest) == seq![line] + tail);
                assert((seq![line] + tail)[0] == line);
                assert((seq![line] + tail).drop_first() =~= tail);
            }
            pos = e + 1;
        }
    }
    assert(cs@.subrange(n as int, n as int) =~= Seq::<char>::empty());
}

/// Whether `d[i..]` starts with `\r\n\r\n`.
pub open spec fn crlf_crlf_at(d: Seq<u8>, i: int) -> bool {
    i + 3 < d.len() && d[i] == 13 && d[i + 1] == 10 && d[i + 2] == 13 && d[i + 3] == 10
}

/// Whether `d[i..]` starts with `\n\n`.
pub open spec fn lf_lf_at(d: Seq<u8>, i: int) -> bool {
    i + 1 < d.len() && d[i] == 10 && d[i + 1] == 10
}

/// Where the body starts: just after the first blank line (`\r\n\r\n` or `\n\n`) at or
/// after `i`, or 0 if there is none.
pub open spec fn body_start_from(d: Seq<u8>, i: int) -> int
    decreases d.len() - i,
{
    if i < 0 || i >= d.len() {
        0
    } else if crlf_crlf_at(d, i) {
        i + 4
    } else if lf_lf_at(d, i) {
        i + 2
    } else {
        body_start_from(d, i + 1)
    }
}

/// The status and headers of a buffered CGI response `d`.
pub open spec fn response_head(d: Seq<u8>) -> HeadView {
    let b = body_start_from(d, 0);
    if b > 0 {
        apply_lines((200, Seq::empty()), text_lines(utf8_lossy_of(d.subrange(0, b))))
    } else {
        (200, Seq::empty())
    }
}

/// The body of a buffered CGI response `d`: what follows the first blank line, or nothing
/// if there is none.
pub open spec fn response_body(d: Seq<u8>) -> Seq<u8> {
    let b = body_start_from(d, 0);
    if b > 0 {
        d.subrange(b, d.len() as int)
    } else {
        Seq::empty()
    }
}

fn find_body_start(data: &[u8]) -> (r: usize)
    ensures
        r == body_start_from(data@, 0),
        r == 0 || (2 <= r <= data@.len()),
{
    let n = data.len();
    let mut i: usize = 0;
    while i < n
        invariant
            n == data@.len(),
            i <= n,
            body_start_from(data@, 0) == body_start_from(data@, i as int),
        decreases n - i,
    {
        if n - i > 3 && data[i] == 13 && data[i + 1] == 10 && data[i + 2] == 13 && data[i + 3]
            == 10 {
            return i + 4;
        }
        if n - i > 1 && data[i] == 10 && data[i + 1] == 10 {
            return i + 2;
        }
        i = i + 1;
    }
    0
}

/// Parse a complete CGI response held in memory into status, headers and body.
pub fn parse_cgi_response(data: &[u8]) -> (r: Result<GitCgiResponse, Error>)
    ensures
        r is Ok,
        r is Ok ==> ({
            let resp = r->Ok_0;
            &&& resp.headers.wf()
            &&& (resp.status, resp.headers@) == response_head(data@)
            &&& resp.body@ == response_body(data@)
        }),
{
    let b = find_body_start(data);
    let mut status: u16 = 200;
    let mut headers = CgiHeaderMap::new();
    let mut body: Vec<u8> = Vec::new();
    if b > 0 {
        let text = utf8_lossy(vstd::slice::slice_subrange(data, 0, b));
        let cs = chars_of(text.as_str());
        read_header_text(text.as_str(), &cs, &mut status, &mut headers);
        let mut i = b;
        while i < data.len()
            invariant
                b <= i <= data@.len(),
                body@ == data@.subrange(b as int, i as int),
            decreases data@.len() - i,
        {
            body.push(data[i]);
            i = i + 1;
            assert(body@ =~= data@.subrange(b as int, i as int));
        }
    }
    assert(b == 0 ==> body@ =~= response_body(data@));
    Ok(GitCgiResponse { status, headers, body })
}

} // verus!

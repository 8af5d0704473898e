//! Which feed bytes the news sentry hands to the feed parser. feed-rs
//! panics on some inputs; these checks leave out every input on which its
//! source shows a panic to be reached, and some more.

use vstd::prelude::*;

verus! {

/// The bytes `b"time"`.
pub open spec fn time_name() -> Seq<u8> {
    seq![116u8, 105u8, 109u8, 101u8]
}

/// The bytes `b"start"`.
pub open spec fn start_name() -> Seq<u8> {
    seq![115u8, 116u8, 97u8, 114u8, 116u8]
}

/// The bytes `b"end"`.
pub open spec fn end_name() -> Seq<u8> {
    seq![101u8, 110u8, 100u8]
}

/// The bytes `b"duration"`.
pub open spec fn duration_name() -> Seq<u8> {
    seq![100u8, 117u8, 114u8, 97u8, 116u8, 105u8, 111u8, 110u8]
}

/// XML whitespace: space, tab, line feed, carriage return.
pub open spec fn is_xml_space(b: u8) -> bool {
    b == 32 || b == 9 || b == 10 || b == 13
}

/// `name` stands at position `i` of `bytes`, followed by XML whitespace and
/// an `=`: the text of an attribute `name` being given a value.
pub open spec fn assigned_at(bytes: Seq<u8>, name: Seq<u8>, i: int) -> bool {
    &&& 0 <= i
    &&& i + name.len() <= bytes.len()
    &&& bytes.subrange(i, i + name.len()) == name
    &&& exists|j: int|
        i + name.len() <= j < bytes.len() && bytes[j] == 61 && forall|k: int|
            i + name.len() <= k < j ==> is_xml_space(#[trigger] bytes[k])
}

/// A byte that ends an element's name: XML whitespace, `>` or `/`.
pub open spec fn ends_name(b: u8) -> bool {
    is_xml_space(b) || b == 62 || b == 47
}

/// `name` stands at position `i` of `bytes` and a byte that ends an
/// element's name follows it: the text of a tag named `name`.
pub open spec fn tag_at(bytes: Seq<u8>, name: Seq<u8>, i: int) -> bool {
    &&& 0 <= i
    &&& i + name.len() < bytes.len()
    &&& bytes.subrange(i, i + name.len()) == name
    &&& ends_name(bytes[i + name.len()])
}

/// The bytes hold no zero byte and no byte 27. Every encoding that the
/// XML reader decodes keeps ASCII text as the same bytes, except UTF-16
/// (whose ASCII characters hold a zero byte) and ISO-2022-JP (whose escape
/// sequences, starting with byte 27, vanish from the text).
pub open spec fn no_zero_or_escape(bytes: Seq<u8>) -> bool {
    forall|i: int| 0 <= i < bytes.len() ==> #[trigger] bytes[i] != 0 && bytes[i] != 27
}

/// Inside the tag `bytes[lo..hi]` stands `time`, `start` or `end` followed
/// by XML whitespace and `=`, or a name `duration`. feed-rs reads a media
/// `time`, `start` or `end` attribute, and the text of an iTunes `duration`
/// element, with `parse_npt`, which panics when their digits do not make a
/// `u64`.
pub open spec fn tag_has_npt_field(bytes: Seq<u8>, lo: int, hi: int) -> bool {
    exists|i: int|
        lo <= i < hi && (#[trigger] assigned_at(bytes, time_name(), i) || assigned_at(bytes, start_name(), i)
            || assigned_at(bytes, end_name(), i) || tag_at(bytes, duration_name(), i))
}

/// Whether a tag named `name` stands at position `i`.
fn tag_at_exec(bytes: &[u8], name: &Vec<u8>, i: usize) -> (r: bool)
    ensures
        r == tag_at(bytes@, name@, i as int),
{
    let n: usize = bytes.len();
    let m: usize = name.len();
    if i >= n || m >= n - i {
        return false;
    }
    let mut k: usize = 0;
    while k < m
        invariant
            n == bytes@.len(),
            m == name@.len(),
            i + m < n,
            k <= m,
            forall|q: int| 0 <= q < k ==> bytes@[i + q] == name@[q],
        decreases m - k,
    {
        if bytes[i + k] != name[k] {
            assert(bytes@.subrange(i as int, i + m)[k as int] != name@[k as int]);
            return false;
        }
        k = k + 1;
    }
    assert(bytes@.subrange(i as int, i + m) =~= name@);
    let b: u8 = bytes[i + m];
    b == 32 || b == 9 || b == 10 || b == 13 || b == 62 || b == 47
}

/// Whether `name` is assigned at position `i`.
fn assigned_at_exec(bytes: &[u8], name: &Vec<u8>, i: usize) -> (r: bool)
    ensures
        r == assigned_at(bytes@, name@, i as int),
{
    let n: usize = bytes.len();
    let m: usize = name.len();
    if i > n || m > n - i {
        return false;
    }
    let mut k: usize = 0;
    while k < m
        invariant
            n == bytes@.len(),
            m == name@.len(),
            i + m <= n,
            k <= m,
            forall|q: int| 0 <= q < k ==> bytes@[i + q] == name@[q],
        decreases m - k,
    {
        if bytes[i + k] != name[k] {
            assert(bytes@.subrange(i as int, i + m)[k as int] != name@[k as int]);
            return false;
        }
        k = k + 1;
    }
    assert(bytes@.subrange(i as int, i + m) =~= name@);
    let mut j: usize = i + m;
    while j < n && (bytes[j] == 32 || bytes[j] == 9 || bytes[j] == 10 || bytes[j] == 13)
        invariant
            n == bytes@.len(),
            i + m <= j <= n,
            forall|q: int| i + m <= q < j ==> is_xml_space(#[trigger] bytes@[q]),
        decreases n - j,
    {
        j = j + 1;
    }
    let r: bool = j < n && bytes[j] == 61;
    proof {
        if !r {
            assert forall|j2: int| !(i + m <= j2 < n && bytes@[j2] == 61 && forall|q: int|
                i + m <= q < j2 ==> is_xml_space(#[trigger] bytes@[q])) by {
                if i + m <= j2 < n && bytes@[j2] == 61 && j2 > j {
                    assert(!is_xml_space(bytes@[j as int]));
                }
            }
        }
    }
    r
}

fn check_zero_or_escape(bytes: &[u8]) -> (r: bool)
    ensures
        r == no_zero_or_escape(bytes@),
{
    let n: usize = bytes.len();
    let mut i: usize = 0;
    while i < n
        invariant
            n == bytes@.len(),
            i <= n,
            forall|q: int| 0 <= q < i ==> #[trigger] bytes@[q] != 0 && bytes@[q] != 27,
        decreases n - i,
    {
        if bytes[i] == 0 || bytes[i] == 27 {
            return false;
        }
        i = i + 1;
    }
    true
}

/// Whether the tag `bytes[lo..hi]` holds a field that feed-rs reads with
/// `parse_npt`.
fn tag_has_npt_field_exec(
    bytes: &[u8],
    lo: usize,
    hi: usize,
    time: &Vec<u8>,
    start: &Vec<u8>,
    end: &Vec<u8>,
    duration: &Vec<u8>,
) -> (r: bool)
    requires
        time@ == time_name(),
        start@ == start_name(),
        end@ == end_name(),
        duration@ == duration_name(),
    ensures
        r == tag_has_npt_field(bytes@, lo as int, hi as int),
{
    let mut i: usize = lo;
    while i < hi
        invariant
            lo <= i,
            time@ == time_name(),
            start@ == start_name(),
            end@ == end_name(),
            duration@ == duration_name(),
            forall|q: int| lo <= q < i ==> !(#[trigger] assigned_at(bytes@, time_name(), q) || assigned_at(
                bytes@,
                start_name(),
                q,
            ) || assigned_at(bytes@, end_name(), q) || tag_at(bytes@, duration_name(), q)),
        decreases hi - i,
    {
        if assigned_at_exec(bytes, time, i) || assigned_at_exec(bytes, start, i)
            || assigned_at_exec(bytes, end, i) || tag_at_exec(bytes, duration, i) {
            return true;
        }
        i = i + 1;
    }
    false
}

/// `lit` stands at position `pos` of `b`.
pub open spec fn lit_at(b: Seq<u8>, pos: int, lit: Seq<u8>) -> bool {
    0 <= pos && pos + lit.len() <= b.len() && b.subrange(pos, pos + lit.len()) == lit
}

/// How far after `from` the first occurrence of `lit` starts, if any.
pub open spec fn find_offset(b: Seq<u8>, lit: Seq<u8>, from: int) -> Option<nat>
    decreases b.len() + 1 - from,
{
    if from < 0 || from + lit.len() > b.len() {
        None
    } else if lit_at(b, from, lit) {
        Some(0)
    } else {
        match find_offset(b, lit, from + 1) {
            Some(k) => Some(k + 1),
            None => None,
        }
    }
}

/// How far after `i` the `>` that ends a tag stands, `>` inside quotes not
/// counting; `q` is the quote open at `i` (0 for none).
pub open spec fn tag_end_offset(b: Seq<u8>, i: int, q: u8) -> Option<nat>
    decreases b.len() - i,
{
    if i < 0 || i >= b.len() {
        None
    } else {
        let c = b[i];
        let next = if q == 0 {
            if c == 62 {
                None
            } else if c == 34 || c == 39 {
                tag_end_offset(b, i + 1, c)
            } else {
                tag_end_offset(b, i + 1, 0)
            }
        } else if c == q {
            tag_end_offset(b, i + 1, 0)
        } else {
            tag_end_offset(b, i + 1, q)
        };
        if q == 0 && c == 62 {
            Some(0)
        } else {
            match next {
                Some(k) => Some(k + 1),
                None => None,
            }
        }
    }
}

/// The local names of the elements whose text feed-rs reads as a person:
/// `author`, `managingEditor`, `webMaster`, `creator` and `name`.
pub open spec fn person_names() -> Seq<Seq<u8>> {
    seq![
        seq![97u8, 117u8, 116u8, 104u8, 111u8, 114u8],
        seq![109u8, 97u8, 110u8, 97u8, 103u8, 105u8, 110u8, 103u8, 69u8, 100u8, 105u8, 116u8, 111u8, 114u8],
        seq![119u8, 101u8, 98u8, 77u8, 97u8, 115u8, 116u8, 101u8, 114u8],
        seq![99u8, 114u8, 101u8, 97u8, 116u8, 111u8, 114u8],
        seq![110u8, 97u8, 109u8, 101u8],
    ]
}

/// One of the person names stands inside `b[lo..hi]`.
pub open spec fn names_person(b: Seq<u8>, lo: int, hi: int) -> bool {
    exists|k: int, n: int|
        lo <= k && 0 <= n < 5 && k + person_names()[n].len() <= hi && #[trigger] lit_at(b, k, person_names()[n])
}

/// Whether `b[lo..hi]` holds an `@`.
pub open spec fn has_at(b: Seq<u8>, lo: int, hi: int) -> bool {
    exists|k: int| lo <= k < hi && #[trigger] b[k] == 64
}

/// Whether `b[lo..hi]` holds a byte outside ASCII.
pub open spec fn has_wide(b: Seq<u8>, lo: int, hi: int) -> bool {
    exists|k: int| lo <= k < hi && #[trigger] b[k] >= 128
}

/// A text could make feed-rs's person parser panic: it may hold an e-mail
/// address (an `@`, or an `&` reference that may give one) beside a
/// character outside ASCII (a byte outside ASCII, or such a reference).
pub open spec fn run_risky(at: bool, wide: bool, amp: bool) -> bool {
    amp || (at && wide)
}

pub open spec fn remaining(len: int, pos: int) -> int {
    if pos < len { len - pos } else { 0 }
}

pub open spec fn cdata_open() -> Seq<u8> {
    seq![60u8, 33u8, 91u8, 67u8, 68u8, 65u8, 84u8, 65u8, 91u8]
}

pub open spec fn cdata_close() -> Seq<u8> {
    seq![93u8, 93u8, 62u8]
}

pub open spec fn comment_open() -> Seq<u8> {
    seq![60u8, 33u8, 45u8, 45u8]
}

pub open spec fn comment_close() -> Seq<u8> {
    seq![45u8, 45u8, 62u8]
}

pub open spec fn pi_open() -> Seq<u8> {
    seq![60u8, 63u8]
}

pub open spec fn pi_close() -> Seq<u8> {
    seq![63u8, 62u8]
}

pub open spec fn bang_open() -> Seq<u8> {
    seq![60u8, 33u8]
}

/// The text runs of an XML document, read from `pos` on as the XML reader
/// that feed-rs uses reads them, hold no risky person text. A run is the
/// text between two element tags: character data, CDATA content and
/// references, with comments and processing instructions dropped. The run
/// after a tag that names a person element is person text; `at`, `wide`
/// and `amp` hold what the current run has shown so far. A tag that holds
/// a field feed-rs reads with `parse_npt` (`tag_has_npt_field`) is refused
/// outright, and so are a DOCTYPE, an unclosed construct, and a comment that
/// the reader may end at `<!-->` or `<!--->`.
pub open spec fn person_text_ok(b: Seq<u8>, pos: int, person: bool, at: bool, wide: bool, amp: bool) -> bool
    decreases remaining(b.len() as int, pos),
{
    if pos < 0 {
        false
    } else if pos >= b.len() {
        !(person && run_risky(at, wide, amp))
    } else if b[pos] == 60 {
        if lit_at(b, pos, cdata_open()) {
            match find_offset(b, cdata_close(), pos + 9) {
                Some(k) => person_text_ok(
                    b,
                    pos + 9 + k + 3,
                    person,
                    at || has_at(b, pos + 9, pos + 9 + k),
                    wide || has_wide(b, pos + 9, pos + 9 + k),
                    amp,
                ),
                None => false,
            }
        } else if lit_at(b, pos, comment_open()) {
            if lit_at(b, pos + 2, comment_close()) || lit_at(b, pos + 3, comment_close()) {
                false
            } else {
                match find_offset(b, comment_close(), pos + 4) {
                    Some(k) => person_text_ok(b, pos + 4 + k + 3, person, at, wide, amp),
                    None => false,
                }
            }
        } else if lit_at(b, pos, pi_open()) {
            match find_offset(b, pi_close(), pos + 1) {
                Some(k) => person_text_ok(b, pos + 1 + k + 2, person, at, wide, amp),
                None => false,
            }
        } else if lit_at(b, pos, bang_open()) {
            false
        } else if person && run_risky(at, wide, amp) {
            false
        } else {
            match tag_end_offset(b, pos + 1, 0) {
                Some(k) => !tag_has_npt_field(b, pos, pos + 1 + k) && person_text_ok(
                    b,
                    pos + 1 + k + 1,
                    names_person(b, pos, pos + 1 + k),
                    false,
                    false,
                    false,
                ),
                None => false,
            }
        }
    } else {
        let c = b[pos];
        person_text_ok(b, pos + 1, person, at || c == 64, wide || c >= 128, amp || c == 38)
    }
}

/// The first `<` or `{` of the bytes, which decides between XML and JSON.
pub open spec fn first_mark(b: Seq<u8>, pos: int) -> Option<u8>
    decreases b.len() - pos,
{
    if pos < 0 || pos >= b.len() {
        None
    } else if b[pos] == 60 || b[pos] == 123 {
        Some(b[pos])
    } else {
        first_mark(b, pos + 1)
    }
}

/// The first position from `pos` on that is not XML whitespace.
pub open spec fn skip_space(b: Seq<u8>, pos: int) -> int
    decreases b.len() - pos,
{
    if pos < 0 || pos >= b.len() || !is_xml_space(b[pos]) {
        pos
    } else {
        skip_space(b, pos + 1)
    }
}

/// The bytes `b"encoding"`.
pub open spec fn encoding_name() -> Seq<u8> {
    seq![101u8, 110u8, 99u8, 111u8, 100u8, 105u8, 110u8, 103u8]
}

/// The ASCII letter `c` in lower case.
pub open spec fn lower(c: u8) -> u8 {
    if 65 <= c <= 90 { (c + 32) as u8 } else { c }
}

/// At `v` stands a quoted `utf-8` (any case).
pub open spec fn quoted_utf8_at(b: Seq<u8>, v: int) -> bool {
    &&& 0 <= v && v + 7 <= b.len()
    &&& (b[v] == 34 || b[v] == 39)
    &&& lower(b[v + 1]) == 117 && lower(b[v + 2]) == 116 && lower(b[v + 3]) == 102
    &&& b[v + 4] == 45 && b[v + 5] == 56
    &&& b[v + 6] == b[v]
}

/// Every `encoding` given a value in the bytes is given a quoted `utf-8`:
/// the XML reader then decodes the text as UTF-8, as it does with no
/// declaration.
pub open spec fn declares_utf8_only(b: Seq<u8>) -> bool {
    forall|i: int| #[trigger] lit_at(b, i, encoding_name()) && skip_space(b, i + 8) < b.len()
        && b[skip_space(b, i + 8)] == 61 ==> quoted_utf8_at(b, skip_space(b, skip_space(b, i + 8) + 1))
}

/// Whether the feed parser is given these bytes. The bytes must meet
/// `no_zero_or_escape`, and an XML feed may hold no tag with a `parse_npt`
/// field (`person_text_ok` refuses them). Besides, feed-rs's person parser
/// (`parse_person_name_email`) slices a text around the e-mail address it
/// finds, and panics when a character outside ASCII stands right beside the
/// address. It reads as a
/// person the text of the elements `person_names` lists and the names of
/// JSON feed authors. So: a JSON feed (first `<` or `{` is `{`) may hold
/// no `\\` escape (which may give any character), nor an `@` together
/// with a byte outside ASCII; in an
/// XML feed, the text after a tag that names a person may not hold an `&`
/// reference, nor an `@` together with a byte outside ASCII. For the XML
/// case the text is read byte by byte, which is what the reader decodes
/// when it decodes UTF-8 or the bytes are all ASCII; so a feed with a byte
/// outside ASCII must declare no encoding but UTF-8.
pub open spec fn screenable_feed(b: Seq<u8>) -> bool {
    &&& no_zero_or_escape(b)
    &&& if first_mark(b, 0) == Some(123u8) {
        !(exists|k: int| 0 <= k < b.len() && #[trigger] b[k] == 92) && !(has_at(b, 0, b.len() as int)
            && has_wide(b, 0, b.len() as int))
    } else {
        &&& (has_wide(b, 0, b.len() as int) ==> declares_utf8_only(b))
        &&& person_text_ok(b, 0, false, false, false, false)
    }
}

/// Whether `lit` stands at `pos`.
fn lit_at_exec(b: &[u8], pos: usize, lit: &Vec<u8>) -> (r: bool)
    ensures
        r == lit_at(b@, pos as int, lit@),
{
    let n: usize = b.len();
    let m: usize = lit.len();
    if pos > n || m > n - pos {
        return false;
    }
    let mut k: usize = 0;
    while k < m
        invariant
            n == b@.len(),
            m == lit@.len(),
            pos + m <= n,
            k <= m,
            forall|q: int| 0 <= q < k ==> b@[pos + q] == lit@[q],
        decreases m - k,
    {
        if b[pos + k] != lit[k] {
            assert(b@.subrange(pos as int, pos + m)[k as int] != lit@[k as int]);
            return false;
        }
        k = k + 1;
    }
    assert(b@.subrange(pos as int, pos + m) =~= lit@);
    true
}

/// Where the first `lit` from `from` on starts.
fn find_exec(b: &[u8], lit: &Vec<u8>, from: usize) -> (r: Option<usize>)
    requires
        lit@.len() > 0,
    ensures
        match r {
            Some(e) => from <= e && find_offset(b@, lit@, from as int) == Some((e - from) as nat)
                && lit_at(b@, e as int, lit@),
            None => find_offset(b@, lit@, from as int) is None,
        },
{
    let n: usize = b.len();
    let m: usize = lit.len();
    let mut i: usize = from;
    while i <= n && m <= n - i
        invariant
            n == b@.len(),
            m == lit@.len(),
            m > 0,
            from <= i,
            match find_offset(b@, lit@, i as int) {
                Some(k) => find_offset(b@, lit@, from as int) == Some((k + i - from) as nat),
                None => find_offset(b@, lit@, from as int) is None,
            },
        decreases n + 1 - i,
    {
        if lit_at_exec(b, i, lit) {
            return Some(i);
        }
        i = i + 1;
    }
    None
}

/// Where the tag whose content starts at `start` ends.
fn tag_end_exec(b: &[u8], start: usize) -> (r: Option<usize>)
    ensures
        match r {
            Some(e) => start <= e < b@.len() && tag_end_offset(b@, start as int, 0) == Some((e - start) as nat),
            None => tag_end_offset(b@, start as int, 0) is None,
        },
{
    let n: usize = b.len();
    let mut i: usize = start;
    let mut q: u8 = 0;
    while i < n
        invariant
            n == b@.len(),
            start <= i,
            match tag_end_offset(b@, i as int, q) {
                Some(k) => tag_end_offset(b@, start as int, 0) == Some((k + i - start) as nat),
                None => tag_end_offset(b@, start as int, 0) is None,
            },
        decreases n - i,
    {
        let c: u8 = b[i];
        if q == 0 {
            if c == 62 {
                return Some(i);
            } else if c == 34 || c == 39 {
                q = c;
            }
        } else if c == q {
            q = 0;
        }
        i = i + 1;
    }
    None
}

/// The five person names.
fn person_name_bytes() -> (r: Vec<Vec<u8>>)
    ensures
        r@.len() == 5,
        forall|n: int| 0 <= n < 5 ==> (#[trigger] r@[n])@ == person_names()[n],
{
    let r: Vec<Vec<u8>> = vec![
        vec![97u8, 117u8, 116u8, 104u8, 111u8, 114u8],
        vec![109u8, 97u8, 110u8, 97u8, 103u8, 105u8, 110u8, 103u8, 69u8, 100u8, 105u8, 116u8, 111u8, 114u8],
        vec![119u8, 101u8, 98u8, 77u8, 97u8, 115u8, 116u8, 101u8, 114u8],
        vec![99u8, 114u8, 101u8, 97u8, 116u8, 111u8, 114u8],
        vec![110u8, 97u8, 109u8, 101u8],
    ];
    assert(r@[0]@ =~= person_names()[0]);
    assert(r@[1]@ =~= person_names()[1]);
    assert(r@[2]@ =~= person_names()[2]);
    assert(r@[3]@ =~= person_names()[3]);
    assert(r@[4]@ =~= person_names()[4]);
    r
}

/// Whether a person name stands inside `b[lo..hi]`.
fn names_person_exec(b: &[u8], lo: usize, hi: usize) -> (r: bool)
    requires
        hi <= b@.len(),
    ensures
        r == names_person(b@, lo as int, hi as int),
{
    let names: Vec<Vec<u8>> = person_name_bytes();
    let mut k: usize = lo;
    while k < hi
        invariant
            hi <= b@.len(),
            lo <= k,
            names@.len() == 5,
            forall|n: int| 0 <= n < 5 ==> (#[trigger] names@[n])@ == person_names()[n],
            forall|k2: int, n: int| lo <= k2 < k && 0 <= n < 5 ==> !(k2 + person_names()[n].len() <= hi
                && #[trigger] lit_at(b@, k2, person_names()[n])),
        decreases hi - k,
    {
        let mut n: usize = 0;
        while n < 5
            invariant
                hi <= b@.len(),
                lo <= k < hi,
                n <= 5,
                names@.len() == 5,
                forall|n2: int| 0 <= n2 < 5 ==> (#[trigger] names@[n2])@ == person_names()[n2],
                forall|n2: int| 0 <= n2 < n ==> !(k + person_names()[n2].len() <= hi
                    && #[trigger] lit_at(b@, k as int, person_names()[n2])),
            decreases 5 - n,
        {
            let name: &Vec<u8> = &names[n];
            if name.len() <= hi - k && lit_at_exec(b, k, name) {
                assert(lit_at(b@, k as int, person_names()[n as int]));
                return true;
            }
            n = n + 1;
        }
        k = k + 1;
    }
    proof {
        assert forall|k2: int, n: int| lo <= k2 && 0 <= n < 5 && k2 + person_names()[n].len() <= hi
            implies !#[trigger] lit_at(b@, k2, person_names()[n]) by {
            assert(k2 < k);
        }
    }
    false
}

/// Whether `b[lo..hi]` holds an `@`, and whether it holds a byte outside
/// ASCII.
fn marks_between(b: &[u8], lo: usize, hi: usize) -> (r: (bool, bool))
    requires
        lo <= hi <= b@.len(),
    ensures
        r.0 == has_at(b@, lo as int, hi as int),
        r.1 == has_wide(b@, lo as int, hi as int),
{
    let mut at: bool = false;
    let mut wide: bool = false;
    let mut k: usize = lo;
    while k < hi
        invariant
            hi <= b@.len(),
            lo <= k <= hi,
            at == has_at(b@, lo as int, k as int),
            wide == has_wide(b@, lo as int, k as int),
        decreases hi - k,
    {
        if b[k] == 64 {
            at = true;
        }
        if b[k] >= 128 {
            wide = true;
        }
        proof {
            if at && b@[k as int] != 64 {
                let w = choose|w: int| lo <= w < k && #[trigger] b@[w] == 64;
                assert(lo <= w < k + 1 && b@[w] == 64);
            }
            if wide && b@[k as int] < 128 {
                let w = choose|w: int| lo <= w < k && #[trigger] b@[w] >= 128;
                assert(lo <= w < k + 1 && b@[w] >= 128);
            }
            if b@[k as int] == 64 {
                assert(lo <= k < k + 1 && b@[k as int] == 64);
            }
            if b@[k as int] >= 128 {
                assert(lo <= k < k + 1 && b@[k as int] >= 128);
            }
        }
        k = k + 1;
    }
    (at, wide)
}

/// Whether the person texts of an XML document are all harmless
/// (`person_text_ok` from the start).
fn person_texts_ok(b: &[u8]) -> (r: bool)
    ensures
        r == person_text_ok(b@, 0, false, false, false, false),
{
    let n: usize = b.len();
    let cdata_o: Vec<u8> = vec![60u8, 33u8, 91u8, 67u8, 68u8, 65u8, 84u8, 65u8, 91u8];
    let cdata_c: Vec<u8> = vec![93u8, 93u8, 62u8];
    let comment_o: Vec<u8> = vec![60u8, 33u8, 45u8, 45u8];
    let comment_c: Vec<u8> = vec![45u8, 45u8, 62u8];
    let pi_o: Vec<u8> = vec![60u8, 63u8];
    let pi_c: Vec<u8> = vec![63u8, 62u8];
    let bang: Vec<u8> = vec![60u8, 33u8];
    assert(cdata_o@ =~= cdata_open());
    assert(cdata_c@ =~= cdata_close());
    assert(comment_o@ =~= comment_open());
    assert(comment_c@ =~= comment_close());
    assert(pi_o@ =~= pi_open());
    assert(pi_c@ =~= pi_close());
    assert(bang@ =~= bang_open());
    let time: Vec<u8> = vec![116u8, 105u8, 109u8, 101u8];
    let start: Vec<u8> = vec![115u8, 116u8, 97u8, 114u8, 116u8];
    let end: Vec<u8> = vec![101u8, 110u8, 100u8];
    let duration: Vec<u8> = vec![100u8, 117u8, 114u8, 97u8, 116u8, 105u8, 111u8, 110u8];
    assert(duration@ =~= duration_name());
    assert(time@ =~= time_name());
    assert(start@ =~= start_name());
    assert(end@ =~= end_name());
    let mut pos: usize = 0;
    let mut person: bool = false;
    let mut at: bool = false;
    let mut wide: bool = false;
    let mut amp: bool = false;
    while pos < n
        invariant
            n == b@.len(),
            pos <= n,
            cdata_o@ == cdata_open(),
            cdata_c@ == cdata_close(),
            comment_o@ == comment_open(),
            comment_c@ == comment_close(),
            pi_o@ == pi_open(),
            pi_c@ == pi_close(),
            bang@ == bang_open(),
            time@ == time_name(),
            start@ == start_name(),
            end@ == end_name(),
            duration@ == duration_name(),
            person_text_ok(b@, 0, false, false, false, false) == person_text_ok(
                b@,
                pos as int,
                person,
                at,
                wide,
                amp,
            ),
        decreases n - pos,
    {
        if b[pos] == 60 {
            if lit_at_exec(b, pos, &cdata_o) {
                match find_exec(b, &cdata_c, pos + 9) {
                    None => {
                        return false;
                    },
                    Some(e) => {
                        let (a2, w2): (bool, bool) = marks_between(b, pos + 9, e);
                        at = at || a2;
                        wide = wide || w2;
                        pos = e + 3;
                    },
                }
            } else if lit_at_exec(b, pos, &comment_o) {
                if lit_at_exec(b, pos + 2, &comment_c) || lit_at_exec(b, pos + 3, &comment_c) {
                    return false;
                }
                match find_exec(b, &comment_c, pos + 4) {
                    None => {
                        return false;
                    },
                    Some(e) => {
                        pos = e + 3;
                    },
                }
            } else if lit_at_exec(b, pos, &pi_o) {
                match find_exec(b, &pi_c, pos + 1) {
                    None => {
                        return false;
                    },
                    Some(e) => {
                        pos = e + 2;
                    },
                }
            } else if lit_at_exec(b, pos, &bang) {
                return false;
            } else if person && (amp || (at && wide)) {
                return false;
            } else {
                match tag_end_exec(b, pos + 1) {
                    None => {
                        return false;
                    },
                    Some(e) => {
                        if tag_has_npt_field_exec(b, pos, e, &time, &start, &end, &duration) {
                            return false;
                        }
                        person = names_person_exec(b, pos, e);
                        at = false;
                        wide = false;
                        amp = false;
                        pos = e + 1;
                    },
                }
            }
        } else {
            let c: u8 = b[pos];
            at = at || c == 64;
            wide = wide || c >= 128;
            amp = amp || c == 38;
            pos = pos + 1;
        }
    }
    !(person && (amp || (at && wide)))
}

/// The first `<` or `{` of the bytes.
fn first_mark_exec(b: &[u8]) -> (r: Option<u8>)
    ensures
        r == first_mark(b@, 0),
{
    let n: usize = b.len();
    let mut i: usize = 0;
    while i < n
        invariant
            n == b@.len(),
            i <= n,
            first_mark(b@, 0) == first_mark(b@, i as int),
        decreases n - i,
    {
        if b[i] == 60 || b[i] == 123 {
            return Some(b[i]);
        }
        i = i + 1;
    }
    None
}

/// The first position from `pos` on that is not XML whitespace.
fn skip_space_exec(b: &[u8], pos: usize) -> (r: usize)
    ensures
        r as int == skip_space(b@, pos as int),
        pos <= r,
        r <= b@.len() || r == pos,
{
    let n: usize = b.len();
    let mut i: usize = pos;
    while i < n && (b[i] == 32 || b[i] == 9 || b[i] == 10 || b[i] == 13)
        invariant
            n == b@.len(),
            pos <= i,
            i <= n || i == pos,
            skip_space(b@, pos as int) == skip_space(b@, i as int),
        decreases n - i,
    {
        i = i + 1;
    }
    i
}

fn lower_exec(c: u8) -> (r: u8)
    ensures
        r == lower(c),
{
    if 65 <= c && c <= 90 { c + 32 } else { c }
}

/// Whether every `encoding` given a value is given a quoted `utf-8`.
fn declares_utf8_only_exec(b: &[u8]) -> (r: bool)
    ensures
        r == declares_utf8_only(b@),
{
    let n: usize = b.len();
    let name: Vec<u8> = vec![101u8, 110u8, 99u8, 111u8, 100u8, 105u8, 110u8, 103u8];
    assert(name@ =~= encoding_name());
    let mut i: usize = 0;
    while i < n
        invariant
            n == b@.len(),
            i <= n,
            name@ == encoding_name(),
            forall|j: int| 0 <= j < i ==> (#[trigger] lit_at(b@, j, encoding_name()) && skip_space(b@, j + 8)
                < b@.len() && b@[skip_space(b@, j + 8)] == 61 ==> quoted_utf8_at(
                b@,
                skip_space(b@, skip_space(b@, j + 8) + 1),
            )),
        decreases n - i,
    {
        if lit_at_exec(b, i, &name) {
            let eq: usize = skip_space_exec(b, i + 8);
            if eq < n && b[eq] == 61 {
                let v: usize = skip_space_exec(b, eq + 1);
                let ok: bool = v < n && 7 <= n - v && (b[v] == 34 || b[v] == 39) && lower_exec(b[v + 1])
                    == 117 && lower_exec(b[v + 2]) == 116 && lower_exec(b[v + 3]) == 102 && b[v + 4] == 45
                    && b[v + 5] == 56 && b[v + 6] == b[v];
                if !ok {
                    assert(!quoted_utf8_at(b@, v as int));
                    return false;
                }
            }
        }
        i = i + 1;
    }
    proof {
        assert forall|j: int| #[trigger] lit_at(b@, j, encoding_name()) && skip_space(b@, j + 8) < b@.len()
            && b@[skip_space(b@, j + 8)] == 61 implies quoted_utf8_at(
            b@,
            skip_space(b@, skip_space(b@, j + 8) + 1),
        ) by {
            assert(j < i);
        }
    }
    true
}

/// Whether the bytes hold `c`.
fn holds_byte(b: &[u8], c: u8) -> (r: bool)
    ensures
        r == exists|k: int| 0 <= k < b@.len() && #[trigger] b@[k] == c,
{
    let mut k: usize = 0;
    while k < b.len()
        invariant
            k <= b@.len(),
            forall|q: int| 0 <= q < k ==> b@[q] != c,
        decreases b.len() - k,
    {
        if b[k] == c {
            return true;
        }
        k = k + 1;
    }
    false
}

/// Whether the news sentry hands these bytes to the feed parser (see
/// `screenable_feed`).
pub fn is_screenable_feed(b: &[u8]) -> (r: bool)
    ensures
        r == screenable_feed(b@),
{
    if !check_zero_or_escape(b) {
        return false;
    }
    let (at, wide): (bool, bool) = marks_between(b, 0, b.len());
    if first_mark_exec(b) == Some(123u8) {
        !holds_byte(b, 92) && !(at && wide)
    } else {
        if wide && !declares_utf8_only_exec(b) {
            return false;
        }
        person_texts_ok(b)
    }
}

} // verus!

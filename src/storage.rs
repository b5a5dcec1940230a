use vstd::prelude::*;

use crate::text::{
    chars_of, decimal, decimal_chars, is_digit, lemma_decimal_reads_back, parse_unsigned,
    parse_unsigned_text, string_of, unsigned_digits,
};

verus! {

/// The high half of a microsecond timestamp, as stored in the sort key.
pub open spec fn key_high(time_us: u64) -> u32 {
    (time_us as int / 0x1_0000_0000) as u32
}

/// The low half of a microsecond timestamp, as stored in the sort key.
pub open spec fn key_low(time_us: u64) -> u32 {
    (time_us as int % 0x1_0000_0000) as u32
}

/// The timestamp that a stored sort key stands for.
pub open spec fn key_time(high: u32, low: u32) -> u64 {
    (high as int * 0x1_0000_0000 + low as int) as u64
}

/// A matched record as the content store holds it.
#[derive(Clone, Debug)]
pub struct FeedContent {
    pub feed_id: String,
    pub uri: String,
    pub indexed_at: u32,
    pub indexed_at_more: u32,
    pub cid: String,
}

impl FeedContent {
    pub fn new(feed_id: String, uri: String, time_us: u64, cid: String) -> (r: Self)
        ensures
            r.feed_id == feed_id,
            r.uri == uri,
            r.cid == cid,
            r.indexed_at == key_high(time_us),
            r.indexed_at_more == key_low(time_us),
    {
        let indexed_at = (time_us >> 32u64) as u32;
        let indexed_at_more = (time_us & 0xffff_ffffu64) as u32;
        assert(time_us >> 32u64 == time_us / 0x1_0000_0000) by (bit_vector);
        assert(time_us & 0xffff_ffffu64 == time_us % 0x1_0000_0000) by (bit_vector);
        FeedContent { feed_id, uri, indexed_at, indexed_at_more, cid }
    }

    pub fn time_us(&self) -> (r: u64)
        ensures
            r == key_time(self.indexed_at, self.indexed_at_more),
    {
        let high = self.indexed_at as u64;
        let low = self.indexed_at_more as u64;
        assert(high < 0x1_0000_0000 && low < 0x1_0000_0000 ==> (high << 32u64) | low == high
            * 0x1_0000_0000 + low) by (bit_vector);
        (high << 32u64) | low
    }
}


/// Splitting a timestamp into the stored sort key loses nothing, for every `u64` (0 and the
/// largest included): joining the two halves gives the timestamp back.
pub proof fn lemma_sort_key_round_trip(time_us: u64)
    ensures
        key_time(key_high(time_us), key_low(time_us)) == time_us,
{
    let t = time_us as int;
    assert(t == (t / 0x1_0000_0000) * 0x1_0000_0000 + t % 0x1_0000_0000) by (nonlinear_arith);
    assert(0 <= t / 0x1_0000_0000 < 0x1_0000_0000) by (nonlinear_arith)
        requires
            0 <= t < 0x1_0000_0000_0000_0000,
    ;
}

/// The stored sort key orders as the timestamps do: comparing (high, low) pairs
/// lexicographically is comparing the timestamps.
pub proof fn lemma_sort_key_order(a: u64, b: u64)
    ensures
        a < b <==> (key_high(a) < key_high(b) || (key_high(a) == key_high(b) && key_low(a)
            < key_low(b))),
{
    let x = a as int;
    let y = b as int;
    assert(x == (x / 0x1_0000_0000) * 0x1_0000_0000 + x % 0x1_0000_0000) by (nonlinear_arith);
    assert(y == (y / 0x1_0000_0000) * 0x1_0000_0000 + y % 0x1_0000_0000) by (nonlinear_arith);
    assert(0 <= x / 0x1_0000_0000 < 0x1_0000_0000) by (nonlinear_arith)
        requires
            0 <= x < 0x1_0000_0000_0000_0000,
    ;
    assert(0 <= y / 0x1_0000_0000 < 0x1_0000_0000) by (nonlinear_arith)
        requires
            0 <= y < 0x1_0000_0000_0000_0000,
    ;
    assert((x / 0x1_0000_0000) < (y / 0x1_0000_0000) ==> x < y) by (nonlinear_arith)
        requires
            x == (x / 0x1_0000_0000) * 0x1_0000_0000 + x % 0x1_0000_0000,
            y == (y / 0x1_0000_0000) * 0x1_0000_0000 + y % 0x1_0000_0000,
            0 <= x % 0x1_0000_0000 < 0x1_0000_0000,
            0 <= y % 0x1_0000_0000 < 0x1_0000_0000,
    ;
    assert((x / 0x1_0000_0000) > (y / 0x1_0000_0000) ==> x > y) by (nonlinear_arith)
        requires
            x == (x / 0x1_0000_0000) * 0x1_0000_0000 + x % 0x1_0000_0000,
            y == (y / 0x1_0000_0000) * 0x1_0000_0000 + y % 0x1_0000_0000,
            0 <= x % 0x1_0000_0000 < 0x1_0000_0000,
            0 <= y % 0x1_0000_0000 < 0x1_0000_0000,
    ;
}

/// `s` holds exactly one comma, at `i`.
pub open spec fn sole_comma_at(s: Seq<char>, i: int) -> bool {
    &&& 0 <= i < s.len()
    &&& s[i] == ','
    &&& forall|j: int| 0 <= j < s.len() && j != i ==> s[j] != ','
}

/// What a page cursor holds: the timestamp before its one comma and the content id after it.
pub open spec fn cursor_parts(s: Seq<char>) -> Option<(u64, Seq<char>)> {
    if exists|i: int| sole_comma_at(s, i) {
        let i = choose|i: int| sole_comma_at(s, i);
        match parse_unsigned(s.take(i), u64::MAX as int) {
            Some(t) => Some((t as u64, s.skip(i + 1))),
            None => None,
        }
    } else {
        None
    }
}

/// The cursor text for a row whose key is (`time_us`, `cid`).
pub open spec fn cursor_text(time_us: u64, cid: Seq<char>) -> Seq<char> {
    decimal(time_us as nat) + seq![','] + cid
}

/// A cursor handed out for a row reads back as that row's key (timestamp and content id),
/// whenever the content id holds no comma.
pub proof fn lemma_cursor_round_trip(time_us: u64, cid: Seq<char>)
    requires
        forall|j: int| 0 <= j < cid.len() ==> cid[j] != ',',
    ensures
        cursor_parts(cursor_text(time_us, cid)) == Some((time_us, cid)),
{
    let d = decimal(time_us as nat);
    let s = cursor_text(time_us, cid);
    lemma_decimal_reads_back(time_us as nat);
    let i = d.len() as int;
    assert forall|j: int| 0 <= j < s.len() && j != i implies s[j] != ',' by {
        if j < i {
            assert(s[j] == d[j]);
            assert(is_digit(d[j]));
        } else {
            assert(s[j] == cid[j - i - 1]);
        }
    }
    assert(sole_comma_at(s, i));
    let k = choose|k: int| sole_comma_at(s, k);
    assert(k == i);
    assert(s.take(i) =~= d);
    assert(s.skip(i + 1) =~= cid);
    assert(d[0] != '+') by {
        assert(is_digit(d[0]));
    }
    assert(unsigned_digits(d) == d);
}

/// Reads a page cursor: its timestamp, the timestamp's two sort-key halves, and its content id.
pub fn parse_cursor(value: Option<String>) -> (r: Option<(u64, u32, u32, String)>)
    ensures
        value is None ==> r is None,
        value matches Some(s) ==> (r is Some <==> cursor_parts(s@) is Some),
        r matches Some(p) ==> {
            &&& value matches Some(s) && cursor_parts(s@) == Some((p.0, p.3@))
            &&& p.1 == key_high(p.0)
            &&& p.2 == key_low(p.0)
        },
{
    let value = match value {
        Some(v) => v,
        None => return None,
    };
    let chars = chars_of(value.as_str());
    let mut commas: usize = 0;
    let mut at: usize = 0;
    let mut i: usize = 0;
    while i < chars.len()
        invariant
            i <= chars.len(),
            chars@ == value@,
            commas <= i,
            commas == 0 ==> forall|j: int| 0 <= j < i ==> chars@[j] != ',',
            commas >= 1 ==> at < i && chars@[at as int] == ',',
            commas == 1 ==> forall|j: int| 0 <= j < i && j != at ==> chars@[j] != ',',
            commas >= 2 ==> !(exists|k: int| sole_comma_at(chars@, k)),
        decreases chars.len() - i,
    {
        if chars[i] == ',' {
            if commas == 0 {
                at = i;
            } else if commas == 1 {
                assert forall|k: int| !sole_comma_at(chars@, k) by {
                    if sole_comma_at(chars@, k) {
                        assert(k == at as int || chars@[at as int] != ',');
                        assert(k == i as int || chars@[i as int] != ',');
                    }
                }
            }
            if commas < 2 {
                commas = commas + 1;
            }
        }
        i = i + 1;
    }
    if commas != 1 {
        if commas == 0 {
            assert forall|k: int| !sole_comma_at(chars@, k) by {
                if 0 <= k < chars@.len() {
                    assert(chars@[k] != ',');
                }
            }
        }
        return None;
    }
    assert(sole_comma_at(chars@, at as int));
    assert forall|k: int| sole_comma_at(chars@, k) implies k == at as int by {
        if k != at as int {
            assert(chars@[at as int] != ',');
        }
    }
    let head = vstd::slice::slice_subrange(chars.as_slice(), 0, at);
    let time_us = match parse_unsigned_text(head, u64::MAX) {
        Some(t) => t,
        None => {
            assert(head@ == chars@.take(at as int));
            return None;
        }
    };
    assert(head@ == chars@.take(at as int));
    let tail = vstd::slice::slice_subrange(chars.as_slice(), at + 1, chars.len());
    assert(tail@ == chars@.skip(at + 1));
    let cid = string_of(tail);
    let content = FeedContent::new(String::new(), String::new(), time_us, cid);
    Some((time_us, content.indexed_at, content.indexed_at_more, content.cid))
}

/// The text in which a source's checkpoint is stored: the watermark's decimal spelling.
pub fn checkpoint_text(time_us: u64) -> (r: String)
    ensures
        r@ == decimal(time_us as nat),
{
    string_of(decimal_chars(time_us).as_slice())
}

/// Reads a stored checkpoint; text that is not a `u64` gives nothing.
pub fn parse_checkpoint(text: &str) -> (r: Option<u64>)
    ensures
        r matches Some(t) ==> parse_unsigned(text@, u64::MAX as int) == Some(t as int),
        r is None ==> parse_unsigned(text@, u64::MAX as int) is None,
{
    let chars = chars_of(text);
    parse_unsigned_text(chars.as_slice(), u64::MAX)
}

/// A checkpoint reads back as the watermark that was written.
pub proof fn lemma_checkpoint_round_trip(time_us: u64)
    ensures
        parse_unsigned(decimal(time_us as nat), u64::MAX as int) == Some(time_us as int),
{
    let d = decimal(time_us as nat);
    lemma_decimal_reads_back(time_us as nat);
    assert(is_digit(d[0]));
    assert(unsigned_digits(d) == d);
}

/// The number of rows a page holds: 20 when the caller names none, else the caller's number
/// held within 1..=100.
pub open spec fn page_size(limit: Option<u16>) -> u16 {
    match limit {
        None => 20,
        Some(n) => if n < 1 {
            1
        } else if n > 100 {
            100
        } else {
            n
        },
    }
}

pub fn page_limit(limit: Option<u16>) -> (r: u16)
    ensures
        r == page_size(limit),
        1 <= r <= 100,
{
    match limit {
        None => 20,
        Some(n) => if n < 1 {
            1
        } else if n > 100 {
            100
        } else {
            n
        },
    }
}

impl FeedContent {
    /// The cursor that follows this row: `"{time_us},{cid}"`.
    pub fn cursor(&self) -> (r: String)
        ensures
            r@ == cursor_text(key_time(self.indexed_at, self.indexed_at_more), self.cid@),
    {
        let mut chars = decimal_chars(self.time_us());
        chars.push(',');
        let mut text = string_of(chars.as_slice());
        text.append(self.cid.as_str());
        text
    }
}

} // verus!

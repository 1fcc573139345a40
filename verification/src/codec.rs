//! Primitives of the canonical wire encoding.
//!
//! Every integer is laid down as a fixed-width little-endian word: lengths,
//! discriminants and characters take four bytes, an option flag takes one.
//! Strings are a character count followed by the characters; lists are an
//! element count followed by the elements. The spec functions here are the
//! single source of truth; the executable encoders and decoders are proved
//! against them, and the round-trip lemmas connect the two directions.

use vstd::prelude::*;

use crate::MAX_MESSAGE_SIZE;

verus! {

use vstd::string::StrSliceExecFns;
use vstd::utf8::is_scalar;

// ---------------------------------------------------------------------------
// Prefix reasoning
// ---------------------------------------------------------------------------
/// `p` occupies the bytes of `s` starting at `i`.
pub open spec fn prefix_at(s: Seq<u8>, i: int, p: Seq<u8>) -> bool {
    &&& 0 <= i
    &&& i + p.len() <= s.len()
    &&& s.subrange(i, i + p.len()) == p
}

/// A prefix made of two parts splits into a prefix and a following prefix.
pub proof fn lemma_prefix_split(s: Seq<u8>, i: int, p1: Seq<u8>, p2: Seq<u8>)
    requires
        prefix_at(s, i, p1 + p2),
    ensures
        prefix_at(s, i, p1),
        prefix_at(s, i + p1.len(), p2),
{
    let whole = s.subrange(i, i + (p1 + p2).len());
    assert forall|k: int| 0 <= k < p1.len() implies s[i + k] == p1[k] by {
        assert(whole[k] == (p1 + p2)[k]);
    }
    assert(s.subrange(i, i + p1.len()) =~= p1);
    assert forall|k: int| 0 <= k < p2.len() implies s[i + p1.len() + k] == p2[k] by {
        assert(whole[p1.len() + k] == (p1 + p2)[p1.len() + k]);
    }
    assert(s.subrange(i + p1.len(), i + p1.len() + p2.len()) =~= p2);
}

// ---------------------------------------------------------------------------
// 32-bit words
// ---------------------------------------------------------------------------
/// The four little-endian bytes of a 32-bit word.
pub open spec fn enc_u32(v: u32) -> Seq<u8> {
    seq![
        (v & 0xff) as u8,
        ((v >> 8) & 0xff) as u8,
        ((v >> 16) & 0xff) as u8,
        ((v >> 24) & 0xff) as u8,
    ]
}

/// The 32-bit word read from four little-endian bytes.
pub open spec fn combine_u32(b0: u8, b1: u8, b2: u8, b3: u8) -> u32 {
    (b0 as u32) | ((b1 as u32) << 8) | ((b2 as u32) << 16) | ((b3 as u32) << 24)
}

/// Reading back the four bytes of a word yields the word.
pub proof fn lemma_u32_round(v: u32)
    ensures
        combine_u32(
            (v & 0xff) as u8,
            ((v >> 8) & 0xff) as u8,
            ((v >> 16) & 0xff) as u8,
            ((v >> 24) & 0xff) as u8,
        ) == v,
{
    assert(((v & 0xff) as u8 as u32) | (((v >> 8) & 0xff) as u8 as u32) << 8 | (((v >> 16)
        & 0xff) as u8 as u32) << 16 | (((v >> 24) & 0xff) as u8 as u32) << 24 == v)
        by (bit_vector);
}

/// Decoder for a 32-bit word.
pub open spec fn dec_u32(s: Seq<u8>, i: int) -> Option<(u32, int)> {
    if 0 <= i && i + 4 <= s.len() {
        Some((combine_u32(s[i], s[i + 1], s[i + 2], s[i + 3]), i + 4))
    } else {
        None
    }
}

/// A word laid down at `i` decodes to itself.
pub proof fn lemma_rt_u32(s: Seq<u8>, i: int, v: u32)
    requires
        prefix_at(s, i, enc_u32(v)),
    ensures
        dec_u32(s, i) == Some((v, i + 4)),
{
    let p = enc_u32(v);
    assert(s[i] == s.subrange(i, i + 4)[0]);
    assert(s[i + 1] == s.subrange(i, i + 4)[1]);
    assert(s[i + 2] == s.subrange(i, i + 4)[2]);
    assert(s[i + 3] == s.subrange(i, i + 4)[3]);
    lemma_u32_round(v);
}

/// Appends the four little-endian bytes of `v`.
pub fn push_u32(out: &mut Vec<u8>, v: u32)
    ensures
        final(out)@ == old(out)@ + enc_u32(v),
{
    out.push((v & 0xff) as u8);
    out.push(((v >> 8) & 0xff) as u8);
    out.push(((v >> 16) & 0xff) as u8);
    out.push(((v >> 24) & 0xff) as u8);
    assert(final(out)@ =~= old(out)@ + enc_u32(v));
}

/// Reads a 32-bit word at `i`.
pub fn read_u32(s: &Vec<u8>, i: usize) -> (r: Option<(u32, usize)>)
    ensures
        (match r {
            Some((v, j)) => dec_u32(s@, i as int) == Some((v, j as int)),
            None => dec_u32(s@, i as int) is None,
        }),
{
    if i < s.len() && s.len() - i >= 4 {
        let b0 = s[i];
        let b1 = s[i + 1];
        let b2 = s[i + 2];
        let b3 = s[i + 3];
        let v = (b0 as u32) | ((b1 as u32) << 8) | ((b2 as u32) << 16) | ((b3 as u32) << 24);
        Some((v, i + 4))
    } else {
        None
    }
}

// ---------------------------------------------------------------------------
// 16-bit values (carried in a 32-bit word)
// ---------------------------------------------------------------------------
/// A 16-bit value is carried in a full word.
pub open spec fn enc_u16(v: u16) -> Seq<u8> {
    enc_u32(v as u32)
}

/// Decoder for a 16-bit value: a word that must fit in 16 bits.
pub open spec fn dec_u16(s: Seq<u8>, i: int) -> Option<(u16, int)> {
    match dec_u32(s, i) {
        Some((v, j)) => if v <= 0xffff {
            Some(((v as u16), j))
        } else {
            None
        },
        None => None,
    }
}

/// A 16-bit value laid down at `i` decodes to itself.
pub proof fn lemma_rt_u16(s: Seq<u8>, i: int, v: u16)
    requires
        prefix_at(s, i, enc_u16(v)),
    ensures
        dec_u16(s, i) == Some((v, i + 4)),
{
    lemma_rt_u32(s, i, v as u32);
}

/// Appends a 16-bit value as a little-endian word.
pub fn push_u16(out: &mut Vec<u8>, v: u16)
    ensures
        final(out)@ == old(out)@ + enc_u16(v),
{
    push_u32(out, v as u32);
}

/// Reads a 16-bit value at `i`.
pub fn read_u16(s: &Vec<u8>, i: usize) -> (r: Option<(u16, usize)>)
    ensures
        (match r {
            Some((v, j)) => dec_u16(s@, i as int) == Some((v, j as int)),
            None => dec_u16(s@, i as int) is None,
        }),
{
    match read_u32(s, i) {
        Some((v, j)) => if v <= 0xffff {
            Some((v as u16, j))
        } else {
            None
        },
        None => None,
    }
}

// ---------------------------------------------------------------------------
// Characters and strings
// ---------------------------------------------------------------------------
/// Decoder for one character: a word that must be a Unicode scalar value.
pub open spec fn dec_char(s: Seq<u8>, i: int) -> Option<(char, int)> {
    match dec_u32(s, i) {
        Some((v, j)) => if is_scalar(v) {
            Some(((v as char), j))
        } else {
            None
        },
        None => None,
    }
}

/// The characters of a string, one word each.
pub open spec fn enc_chars(cs: Seq<char>) -> Seq<u8>
    decreases cs.len(),
{
    if cs.len() == 0 {
        Seq::empty()
    } else {
        enc_u32(cs[0] as u32) + enc_chars(cs.drop_first())
    }
}

/// The character block is four bytes per character.
pub proof fn lemma_enc_chars_len(cs: Seq<char>)
    ensures
        enc_chars(cs).len() == 4 * cs.len(),
    decreases cs.len(),
{
    if cs.len() > 0 {
        lemma_enc_chars_len(cs.drop_first());
    }
}

/// Appending a character appends its word.
pub proof fn lemma_enc_chars_push(cs: Seq<char>, c: char)
    ensures
        enc_chars(cs.push(c)) == enc_chars(cs) + enc_u32(c as u32),
    decreases cs.len(),
{
    if cs.len() == 0 {
        reveal_with_fuel(enc_chars, 3);
        assert(cs.push(c).drop_first() =~= Seq::<char>::empty());
        assert(enc_chars(cs.push(c)) =~= enc_chars(cs) + enc_u32(c as u32));
    } else {
        assert(cs.push(c).drop_first() =~= cs.drop_first().push(c));
        lemma_enc_chars_push(cs.drop_first(), c);
        assert(enc_chars(cs.push(c)) =~= enc_chars(cs) + enc_u32(c as u32));
    }
}

/// Decoder for `n` characters.
pub open spec fn dec_chars(s: Seq<u8>, i: int, n: nat) -> Option<(Seq<char>, int)>
    decreases n,
{
    if n == 0 {
        Some((Seq::empty(), i))
    } else {
        match dec_char(s, i) {
            Some((c, j)) => match dec_chars(s, j, (n - 1) as nat) {
                Some((cs, k)) => Some((seq![c] + cs, k)),
                None => None,
            },
            None => None,
        }
    }
}

/// A character block laid down at `i` decodes to its characters.
pub proof fn lemma_rt_chars(s: Seq<u8>, i: int, cs: Seq<char>)
    requires
        prefix_at(s, i, enc_chars(cs)),
    ensures
        dec_chars(s, i, cs.len()) == Some((cs, i + enc_chars(cs).len())),
    decreases cs.len(),
{
    lemma_enc_chars_len(cs);
    if cs.len() == 0 {
        assert(dec_chars(s, i, 0) == Some((Seq::<char>::empty(), i)));
        assert(cs =~= Seq::<char>::empty());
    } else {
        let c = cs[0];
        let rest = cs.drop_first();
        lemma_prefix_split(s, i, enc_u32(c as u32), enc_chars(rest));
        lemma_rt_u32(s, i, c as u32);
        vstd::utf8::char_is_scalar(c);
        vstd::utf8::char_u32_cast(c, c as u32);
        lemma_rt_chars(s, i + 4, rest);
        lemma_enc_chars_len(rest);
        assert(seq![c] + rest =~= cs);
    }
}

/// A string: its character count, then its characters.
pub open spec fn enc_string(cs: Seq<char>) -> Seq<u8> {
    enc_u32(cs.len() as u32) + enc_chars(cs)
}

/// Decoder for a string.
pub open spec fn dec_string(s: Seq<u8>, i: int) -> Option<(Seq<char>, int)> {
    match dec_u32(s, i) {
        Some((n, j)) => dec_chars(s, j, n as nat),
        None => None,
    }
}

/// A string laid down at `i` decodes to itself.
pub proof fn lemma_rt_string(s: Seq<u8>, i: int, cs: Seq<char>)
    requires
        prefix_at(s, i, enc_string(cs)),
        cs.len() <= u32::MAX,
    ensures
        dec_string(s, i) == Some((cs, i + enc_string(cs).len())),
{
    lemma_prefix_split(s, i, enc_u32(cs.len() as u32), enc_chars(cs));
    lemma_rt_u32(s, i, cs.len() as u32);
    lemma_rt_chars(s, i + 4, cs);
    lemma_enc_chars_len(cs);
}

/// Appends a string block; refuses a string too long for its count word.
pub fn push_string(out: &mut Vec<u8>, s: &str) -> (ok: bool)
    ensures
        ok ==> final(out)@ == old(out)@ + enc_string(s@),
        !ok ==> enc_string(s@).len() > MAX_MESSAGE_SIZE,
        !ok ==> final(out)@ == old(out)@,
{
    let n = s.unicode_len();
    if n > MAX_MESSAGE_SIZE {
        proof {
            lemma_enc_chars_len(s@);
        }
        return false;
    }
    push_u32(out, n as u32);
    let ghost start = out@;
    let mut k: usize = 0;
    while k < n
        invariant
            n == s@.len(),
            0 <= k <= n,
            out@ == start + enc_chars(s@.take(k as int)),
        decreases n - k,
    {
        let c = s.get_char(k);
        push_u32(out, c as u32);
        proof {
            assert(s@.take(k + 1).drop_last() =~= s@.take(k as int));
            assert(s@.take(k + 1) =~= s@.take(k as int).push(s@[k as int]));
            lemma_enc_chars_push(s@.take(k as int), s@[k as int]);
        }
        k += 1;
    }
    proof {
        assert(s@.take(n as int) =~= s@);
    }
    true
}

/// Relies on `char::from_u32`: `Some` exactly for Unicode scalar values,
/// returning the character with that value.
#[verifier::external_body]
fn char_from_u32(v: u32) -> (r: Option<char>)
    ensures
        r is Some <==> is_scalar(v),
        (match r {
            Some(c) => c as u32 == v,
            None => true,
        }),
{
    char::from_u32(v)
}

/// Relies on `String::push`: appends one character at the end.
#[verifier::external_body]
fn push_char(s: &mut String, c: char)
    ensures
        final(s)@ == old(s)@.push(c),
{
    s.push(c);
}

/// Reads a string block at `i`.
pub fn read_string(s: &Vec<u8>, i: usize) -> (r: Option<(String, usize)>)
    ensures
        (match r {
            Some((v, j)) => dec_string(s@, i as int) == Some((v@, j as int)),
            None => dec_string(s@, i as int) is None,
        }),
{
    let (n, start) = match read_u32(s, i) {
        Some(p) => p,
        None => {
            return None;
        },
    };
    proof {
        assert(dec_string(s@, i as int) == dec_chars(s@, start as int, n as nat));
    }
    let mut acc = String::new();
    let mut cur: usize = start;
    let mut k: u32 = 0;
    proof {
        if let Some((rest, j)) = dec_chars(s@, start as int, n as nat) {
            assert(acc@ + rest =~= rest);
        }
    }
    while k < n
        invariant
            0 <= k <= n,
            dec_string(s@, i as int) == dec_chars(s@, start as int, n as nat),
            (match dec_chars(s@, cur as int, (n - k) as nat) {
                Some((rest, j)) => dec_chars(s@, start as int, n as nat) == Some(
                    (acc@ + rest, j),
                ),
                None => dec_chars(s@, start as int, n as nat) is None,
            }),
        decreases n - k,
    {
        let ghost m = (n - k) as nat;
        let (w, next) = match read_u32(s, cur) {
            Some(p) => p,
            None => {
                proof {
                    assert(dec_chars(s@, cur as int, m) is None);
                }
                return None;
            },
        };
        let c = match char_from_u32(w) {
            Some(c) => c,
            None => {
                proof {
                    assert(dec_chars(s@, cur as int, m) is None);
                }
                return None;
            },
        };
        proof {
            vstd::utf8::char_u32_cast(c, w);
            assert(dec_char(s@, cur as int) == Some((c, next as int)));
            if let Some((rest2, j)) = dec_chars(s@, next as int, (m - 1) as nat) {
                assert(dec_chars(s@, cur as int, m) == Some((seq![c] + rest2, j)));
                assert(acc@ + (seq![c] + rest2) =~= acc@.push(c) + rest2);
            }
        }
        push_char(&mut acc, c);
        cur = next;
        k += 1;
    }
    proof {
        assert(dec_chars(s@, cur as int, 0) == Some((Seq::<char>::empty(), cur as int)));
        assert(acc@ + Seq::<char>::empty() =~= acc@);
    }
    Some((acc, cur))
}

// ---------------------------------------------------------------------------
// Lists of strings
// ---------------------------------------------------------------------------
/// The concatenated string blocks of a list.
pub open spec fn enc_str_items(l: Seq<Seq<char>>) -> Seq<u8>
    decreases l.len(),
{
    if l.len() == 0 {
        Seq::empty()
    } else {
        enc_string(l[0]) + enc_str_items(l.drop_first())
    }
}

/// Appending a string appends its block.
pub proof fn lemma_enc_str_items_push(l: Seq<Seq<char>>, x: Seq<char>)
    ensures
        enc_str_items(l.push(x)) == enc_str_items(l) + enc_string(x),
    decreases l.len(),
{
    if l.len() == 0 {
        reveal_with_fuel(enc_str_items, 3);
        assert(l.push(x).drop_first() =~= Seq::<Seq<char>>::empty());
        assert(enc_str_items(l.push(x)) =~= enc_str_items(l) + enc_string(x));
    } else {
        assert(l.push(x).drop_first() =~= l.drop_first().push(x));
        lemma_enc_str_items_push(l.drop_first(), x);
        assert(enc_str_items(l.push(x)) =~= enc_str_items(l) + enc_string(x));
    }
}

/// Decoder for `n` string blocks.
pub open spec fn dec_str_items(s: Seq<u8>, i: int, n: nat) -> Option<(Seq<Seq<char>>, int)>
    decreases n,
{
    if n == 0 {
        Some((Seq::empty(), i))
    } else {
        match dec_string(s, i) {
            Some((x, j)) => match dec_str_items(s, j, (n - 1) as nat) {
                Some((l, k)) => Some((seq![x] + l, k)),
                None => None,
            },
            None => None,
        }
    }
}

/// Whether every string of a list fits its count word.
pub open spec fn strs_bounded(l: Seq<Seq<char>>) -> bool {
    forall|i: int| 0 <= i < l.len() ==> (#[trigger] l[i]).len() <= u32::MAX
}

/// String blocks laid down at `i` decode to their strings.
pub proof fn lemma_rt_str_items(s: Seq<u8>, i: int, l: Seq<Seq<char>>)
    requires
        prefix_at(s, i, enc_str_items(l)),
        strs_bounded(l),
    ensures
        dec_str_items(s, i, l.len()) == Some((l, i + enc_str_items(l).len())),
    decreases l.len(),
{
    if l.len() == 0 {
        assert(l =~= Seq::<Seq<char>>::empty());
    } else {
        let x = l[0];
        let rest = l.drop_first();
        lemma_prefix_split(s, i, enc_string(x), enc_str_items(rest));
        lemma_rt_string(s, i, x);
        lemma_rt_str_items(s, i + enc_string(x).len(), rest);
        assert(seq![x] + rest =~= l);
    }
}

/// A string list: its element count, then its string blocks.
pub open spec fn enc_str_list(l: Seq<Seq<char>>) -> Seq<u8> {
    enc_u32(l.len() as u32) + enc_str_items(l)
}

/// Decoder for a string list.
pub open spec fn dec_str_list(s: Seq<u8>, i: int) -> Option<(Seq<Seq<char>>, int)> {
    match dec_u32(s, i) {
        Some((n, j)) => dec_str_items(s, j, n as nat),
        None => None,
    }
}

/// A string list laid down at `i` decodes to itself.
pub proof fn lemma_rt_str_list(s: Seq<u8>, i: int, l: Seq<Seq<char>>)
    requires
        prefix_at(s, i, enc_str_list(l)),
        l.len() <= u32::MAX,
        strs_bounded(l),
    ensures
        dec_str_list(s, i) == Some((l, i + enc_str_list(l).len())),
{
    lemma_prefix_split(s, i, enc_u32(l.len() as u32), enc_str_items(l));
    lemma_rt_u32(s, i, l.len() as u32);
    lemma_rt_str_items(s, i + 4, l);
}

/// Appends a string list block; refuses an oversized list.
pub fn push_str_list(out: &mut Vec<u8>, l: &Vec<String>) -> (ok: bool)
    ensures
        ok ==> final(out)@ == old(out)@ + enc_str_list(l.deep_view()),
        !ok ==> enc_str_list(l.deep_view()).len() > MAX_MESSAGE_SIZE,
{
    let n = l.len();
    if n > MAX_MESSAGE_SIZE {
        proof {
            lemma_enc_str_items_len_ge(l.deep_view());
        }
        return false;
    }
    push_u32(out, n as u32);
    let ghost start = out@;
    let ghost lv = l.deep_view();
    let mut k: usize = 0;
    while k < n
        invariant
            n == l@.len(),
            lv == l.deep_view(),
            0 <= k <= n,
            out@ == start + enc_str_items(lv.take(k as int)),
        decreases n - k,
    {
        proof {
            assert(lv[k as int] == l@[k as int]@);
        }
        let ok = push_string(out, l[k].as_str());
        if !ok {
            proof {
                lemma_enc_str_items_member_le(lv, k as int);
            }
            return false;
        }
        proof {
            assert(lv.take(k + 1).drop_last() =~= lv.take(k as int));
            assert(lv.take(k + 1) =~= lv.take(k as int).push(lv[k as int]));
            lemma_enc_str_items_push(lv.take(k as int), lv[k as int]);
        }
        k += 1;
    }
    proof {
        assert(lv.take(n as int) =~= lv);
    }
    true
}

/// Each string block of a list is no longer than the whole block.
pub proof fn lemma_enc_str_items_member_le(l: Seq<Seq<char>>, k: int)
    requires
        0 <= k < l.len(),
    ensures
        enc_string(l[k]).len() <= enc_str_items(l).len(),
    decreases l.len(),
{
    if k == 0 {
    } else {
        lemma_enc_str_items_member_le(l.drop_first(), k - 1);
    }
}

/// A list of `n` strings encodes to at least four bytes per string.
pub proof fn lemma_enc_str_items_len_ge(l: Seq<Seq<char>>)
    ensures
        enc_str_items(l).len() >= 4 * l.len(),
    decreases l.len(),
{
    if l.len() > 0 {
        lemma_enc_str_items_len_ge(l.drop_first());
    }
}

/// Reads a string list block at `i`.
pub fn read_str_list(s: &Vec<u8>, i: usize) -> (r: Option<(Vec<String>, usize)>)
    ensures
        (match r {
            Some((v, j)) => dec_str_list(s@, i as int) == Some((v.deep_view(), j as int)),
            None => dec_str_list(s@, i as int) is None,
        }),
{
    let (n, start) = match read_u32(s, i) {
        Some(p) => p,
        None => {
            return None;
        },
    };
    proof {
        assert(dec_u32(s@, i as int) == Some((n, start as int)));
        assert(dec_str_list(s@, i as int) == dec_str_items(s@, start as int, n as nat));
    }
    let mut acc: Vec<String> = Vec::new();
    let mut cur: usize = start;
    let mut k: u32 = 0;
    proof {
        if let Some((rest, j)) = dec_str_items(s@, start as int, n as nat) {
            assert(acc.deep_view() + rest =~= rest);
        }
    }
    while k < n
        invariant
            0 <= k <= n,
            dec_str_list(s@, i as int) == dec_str_items(s@, start as int, n as nat),
            (match dec_str_items(s@, cur as int, (n - k) as nat) {
                Some((rest, j)) => dec_str_items(s@, start as int, n as nat) == Some(
                    (acc.deep_view() + rest, j),
                ),
                None => dec_str_items(s@, start as int, n as nat) is None,
            }),
        decreases n - k,
    {
        let ghost m = (n - k) as nat;
        let ghost accv = acc.deep_view();
        let (x, next) = match read_string(s, cur) {
            Some(p) => p,
            None => {
                return None;
            },
        };
        proof {
            if let Some((rest2, j)) = dec_str_items(s@, next as int, (m - 1) as nat) {
                assert(dec_str_items(s@, cur as int, m) == Some((seq![x@] + rest2, j)));
                assert(accv + (seq![x@] + rest2) =~= accv.push(x@) + rest2);
            }
        }
        acc.push(x);
        proof {
            assert(acc.deep_view() =~= accv.push(x@));
        }
        cur = next;
        k += 1;
    }
    proof {
        assert(acc.deep_view() + Seq::<Seq<char>>::empty() =~= acc.deep_view());
    }
    Some((acc, cur))
}

} // verus!

//! The vector-id codec.
//!
//! Every chunk of a document is keyed across all stores by the string
//! `"{document_id}-{chunk_index}"`. A document id may itself contain `-`,
//! so decoding takes everything before the *last* `-` as the document id
//! and the trailing segment as the decimal chunk index.

use vstd::prelude::*;
use vstd::string::StrSliceExecFns;
use vstd::string::StringExecFns;

verus! {

/// Index of the last `-` in `s`, or -1 when `s` holds none.
pub open spec fn last_dash(s: Seq<char>) -> int
    decreases s.len(),
{
    if s.len() == 0 {
        -1
    } else if s.last() == '-' {
        s.len() - 1
    } else {
        last_dash(s.drop_last())
    }
}

pub open spec fn has_dash(s: Seq<char>) -> bool {
    last_dash(s) >= 0
}

/// The document part of a vector id: everything before the last `-`
/// (empty when there is no `-` at all).
pub open spec fn doc_of(s: Seq<char>) -> Seq<char> {
    if has_dash(s) {
        s.subrange(0, last_dash(s))
    } else {
        Seq::empty()
    }
}

/// The trailing segment of a vector id: everything after the last `-`
/// (the whole string when there is no `-`).
pub open spec fn tail_of(s: Seq<char>) -> Seq<char> {
    if has_dash(s) {
        s.subrange(last_dash(s) + 1, s.len() as int)
    } else {
        s
    }
}

pub open spec fn is_digit(c: char) -> bool {
    48 <= c as int && c as int <= 57
}

pub open spec fn digit_val(c: char) -> nat {
    (c as int - 48) as nat
}

pub open spec fn all_digits(s: Seq<char>) -> bool {
    forall|i: int| 0 <= i < s.len() ==> is_digit(#[trigger] s[i])
}

/// Value of a string of decimal digits, most significant first.
pub open spec fn digits_val(s: Seq<char>) -> nat
    decreases s.len(),
{
    if s.len() == 0 {
        0
    } else {
        digits_val(s.drop_last()) * 10 + digit_val(s.last())
    }
}

pub open spec fn digit_char(d: nat) -> char {
    if d == 0 { '0' }
    else if d == 1 { '1' }
    else if d == 2 { '2' }
    else if d == 3 { '3' }
    else if d == 4 { '4' }
    else if d == 5 { '5' }
    else if d == 6 { '6' }
    else if d == 7 { '7' }
    else if d == 8 { '8' }
    else { '9' }
}

/// Decimal rendering of `n`, without leading zeroes (`0` renders as "0").
pub open spec fn dec_digits(n: nat) -> Seq<char>
    decreases n,
{
    if n < 10 {
        seq![digit_char(n)]
    } else {
        dec_digits(n / 10).push(digit_char(n % 10))
    }
}

/// The vector id of chunk `n` of document `doc`.
pub open spec fn vid_of(doc: Seq<char>, n: nat) -> Seq<char> {
    doc + seq!['-'] + dec_digits(n)
}

/// A vector id that decodes cleanly: it has a `-`, a nonempty all-digit
/// trailing segment, and a chunk index that fits the machine.
pub open spec fn well_formed_vid(s: Seq<char>) -> bool {
    &&& has_dash(s)
    &&& tail_of(s).len() > 0
    &&& all_digits(tail_of(s))
    &&& digits_val(tail_of(s)) <= usize::MAX as nat
}

proof fn lemma_last_dash_extend_no_dash(s: Seq<char>, b: Seq<char>)
    requires
        forall|i: int| 0 <= i < b.len() ==> b[i] != '-',
    ensures
        last_dash(s + b) == last_dash(s),
    decreases b.len(),
{
    if b.len() == 0 {
        assert(s + b =~= s);
    } else {
        assert((s + b).drop_last() =~= s + b.drop_last());
        assert((s + b).last() == b.last());
        assert(forall|i: int| 0 <= i < b.drop_last().len() ==> b.drop_last()[i] == b[i]);
        lemma_last_dash_extend_no_dash(s, b.drop_last());
    }
}

/// Where a string is a prefix, then one `-`, then a dash-free suffix, the
/// last dash stands exactly at the end of the prefix.
proof fn lemma_last_dash_concat(a: Seq<char>, b: Seq<char>)
    requires
        forall|i: int| 0 <= i < b.len() ==> b[i] != '-',
    ensures
        last_dash(a + seq!['-'] + b) == a.len(),
{
    assert(a.push('-').last() == '-');
    assert(last_dash(a.push('-')) == a.len());
    lemma_last_dash_extend_no_dash(a.push('-'), b);
    assert(a + seq!['-'] + b =~= a.push('-') + b);
}

/// A witness for the last dash: the character there is `-` and none after
/// it is.
proof fn lemma_last_dash_witness(s: Seq<char>, i: int)
    requires
        0 <= i < s.len(),
        s[i] == '-',
        forall|j: int| i < j < s.len() ==> s[j] != '-',
    ensures
        last_dash(s) == i,
{
    let a = s.take(i);
    let b = s.skip(i + 1);
    assert(forall|k: int| 0 <= k < b.len() ==> b[k] == s[i + 1 + k] && b[k] != '-');
    lemma_last_dash_concat(a, b);
    assert(s =~= a + seq!['-'] + b);
}

/// A string with no dash at all has `last_dash == -1`.
proof fn lemma_last_dash_absent(s: Seq<char>)
    requires
        forall|i: int| 0 <= i < s.len() ==> s[i] != '-',
    ensures
        last_dash(s) == -1,
{
    lemma_last_dash_extend_no_dash(Seq::empty(), s);
    assert(Seq::<char>::empty() + s =~= s);
}

/// The decimal rendering of `n` is a nonempty string of digits (so it holds
/// no dash) whose value reads back as `n`.
proof fn lemma_dec_digits_wf(n: nat)
    ensures
        dec_digits(n).len() >= 1,
        all_digits(dec_digits(n)),
        digits_val(dec_digits(n)) == n,
    decreases n,
{
    if n < 10 {
        assert(dec_digits(n) =~= seq![digit_char(n)]);
        assert(is_digit(digit_char(n)));
        assert(digits_val(seq![digit_char(n)]) == digit_val(digit_char(n))) by {
            let s = seq![digit_char(n)];
            assert(s.len() == 1);
            assert(s.drop_last() =~= Seq::<char>::empty());
            assert(digits_val(Seq::<char>::empty()) == 0);
            assert(s.last() == digit_char(n));
            assert(digits_val(s) == digits_val(s.drop_last()) * 10 + digit_val(s.last()));
        }
        assert(digit_val(digit_char(n)) == n);
    } else {
        lemma_dec_digits_wf(n / 10);
        let d = dec_digits(n);
        assert(d == dec_digits(n / 10).push(digit_char(n % 10)));
        assert(d.drop_last() =~= dec_digits(n / 10));
        assert(d.last() == digit_char(n % 10));
        assert(is_digit(digit_char(n % 10)));
        assert(forall|i: int| 0 <= i < d.len() ==> is_digit(d[i])) by {
            assert(forall|i: int| 0 <= i < d.len() - 1 ==> d[i] == dec_digits(n / 10)[i]);
        }
        assert(digit_val(digit_char(n % 10)) == n % 10);
        vstd::arithmetic::div_mod::lemma_fundamental_div_mod(n as int, 10);
    }
}

/// Digit characters are not dashes.
proof fn lemma_digits_no_dash(s: Seq<char>)
    requires
        all_digits(s),
    ensures
        forall|i: int| 0 <= i < s.len() ==> s[i] != '-',
{
    assert forall|i: int| 0 <= i < s.len() implies s[i] != '-' by {
        assert(is_digit(s[i]));
        assert('-' as int == 45);
    }
}

/// The value of a digit string only grows as more digits are read.
proof fn lemma_digits_val_take_le(s: Seq<char>, i: int)
    requires
        0 <= i <= s.len(),
    ensures
        digits_val(s.take(i)) <= digits_val(s),
    decreases s.len() - i,
{
    if i == s.len() {
        assert(s.take(i) =~= s);
    } else {
        assert(s.take(i + 1).drop_last() =~= s.take(i));
        assert(digits_val(s.take(i + 1)) == digits_val(s.take(i)) * 10 + digit_val(s.take(i + 1).last()));
        lemma_digits_val_take_le(s, i + 1);
    }
}

/// Decoding inverts encoding: for any document id (hyphens included) and any
/// chunk index, the document part of `"{doc}-{n}"` is exactly `doc` and the
/// trailing segment reads back as exactly `n`.
pub proof fn lemma_vector_id_round_trip(doc: Seq<char>, n: nat)
    ensures
        has_dash(vid_of(doc, n)),
        doc_of(vid_of(doc, n)) == doc,
        tail_of(vid_of(doc, n)) == dec_digits(n),
        digits_val(tail_of(vid_of(doc, n))) == n,
        all_digits(tail_of(vid_of(doc, n))),
        tail_of(vid_of(doc, n)).len() > 0,
        n <= usize::MAX as nat ==> well_formed_vid(vid_of(doc, n)),
{
    let v = vid_of(doc, n);
    lemma_dec_digits_wf(n);
    lemma_digits_no_dash(dec_digits(n));
    lemma_last_dash_concat(doc, dec_digits(n));
    assert(v.subrange(0, doc.len() as int) =~= doc);
    assert(v.subrange(doc.len() as int + 1, v.len() as int) =~= dec_digits(n));
}

/// Distinct chunk indexes give distinct vector ids for the same document.
pub proof fn lemma_vid_injective(doc: Seq<char>, i: nat, j: nat)
    requires
        i != j,
    ensures
        vid_of(doc, i) != vid_of(doc, j),
{
    lemma_vector_id_round_trip(doc, i);
    lemma_vector_id_round_trip(doc, j);
    if vid_of(doc, i) == vid_of(doc, j) {
        assert(digits_val(tail_of(vid_of(doc, i))) == digits_val(tail_of(vid_of(doc, j))));
    }
}

fn push_digit(s: &mut String, d: usize)
    requires
        d < 10,
    ensures
        final(s)@ == old(s)@ + seq![digit_char(d as nat)],
{
    if d == 0 {
        s.append("0");
        proof { reveal_strlit("0"); assert("0"@ =~= seq![digit_char(0)]); }
    } else if d == 1 {
        s.append("1");
        proof { reveal_strlit("1"); assert("1"@ =~= seq![digit_char(1)]); }
    } else if d == 2 {
        s.append("2");
        proof { reveal_strlit("2"); assert("2"@ =~= seq![digit_char(2)]); }
    } else if d == 3 {
        s.append("3");
        proof { reveal_strlit("3"); assert("3"@ =~= seq![digit_char(3)]); }
    } else if d == 4 {
        s.append("4");
        proof { reveal_strlit("4"); assert("4"@ =~= seq![digit_char(4)]); }
    } else if d == 5 {
        s.append("5");
        proof { reveal_strlit("5"); assert("5"@ =~= seq![digit_char(5)]); }
    } else if d == 6 {
        s.append("6");
        proof { reveal_strlit("6"); assert("6"@ =~= seq![digit_char(6)]); }
    } else if d == 7 {
        s.append("7");
        proof { reveal_strlit("7"); assert("7"@ =~= seq![digit_char(7)]); }
    } else if d == 8 {
        s.append("8");
        proof { reveal_strlit("8"); assert("8"@ =~= seq![digit_char(8)]); }
    } else {
        s.append("9");
        proof { reveal_strlit("9"); assert("9"@ =~= seq![digit_char(9)]); }
    }
}

fn push_decimal(s: &mut String, n: usize)
    ensures
        final(s)@ == old(s)@ + dec_digits(n as nat),
    decreases n,
{
    if n < 10 {
        push_digit(s, n);
    } else {
        push_decimal(s, n / 10);
        push_digit(s, n % 10);
        proof {
            assert(dec_digits(n as nat) == dec_digits(n as nat / 10).push(digit_char(n as nat % 10)));
            assert(old(s)@ + dec_digits((n / 10) as nat) + seq![digit_char((n % 10) as nat)]
                =~= old(s)@ + dec_digits(n as nat));
        }
    }
}

/// Encode the vector id `"{document_id}-{chunk_index}"`.
pub fn make_vector_id(document_id: &str, chunk_index: usize) -> (r: String)
    ensures
        r@ == vid_of(document_id@, chunk_index as nat),
{
    let mut s = document_id.to_owned();
    s.append("-");
    proof { reveal_strlit("-"); assert("-"@ =~= seq!['-']); }
    push_decimal(&mut s, chunk_index);
    proof {
        assert(document_id@ + "-"@ + dec_digits(chunk_index as nat)
            =~= document_id@ + seq!['-'] + dec_digits(chunk_index as nat));
    }
    s
}

fn find_last_dash(s: &str) -> (r: Option<usize>)
    ensures
        match r {
            Some(i) => i < s@.len() && last_dash(s@) == i,
            None => last_dash(s@) == -1,
        },
{
    let n = s.unicode_len();
    let mut i = n;
    while i > 0
        invariant
            i <= n,
            n == s@.len(),
            forall|j: int| i <= j < n ==> s@[j] != '-',
        decreases i,
    {
        i = i - 1;
        if s.get_char(i) == '-' {
            proof { lemma_last_dash_witness(s@, i as int); }
            return Some(i);
        }
    }
    proof { lemma_last_dash_absent(s@); }
    None
}

fn parse_decimal(t: &str) -> (r: Option<usize>)
    ensures
        match r {
            Some(v) => t@.len() > 0 && all_digits(t@) && digits_val(t@) <= usize::MAX as nat
                && v == digits_val(t@),
            None => !(t@.len() > 0 && all_digits(t@) && digits_val(t@) <= usize::MAX as nat),
        },
{
    let n = t.unicode_len();
    if n == 0 {
        return None;
    }
    let mut val: usize = 0;
    let mut i: usize = 0;
    while i < n
        invariant
            i <= n,
            n == t@.len(),
            all_digits(t@.take(i as int)),
            val == digits_val(t@.take(i as int)),
        decreases n - i,
    {
        let c = t.get_char(i);
        let cu = c as u32;
        if cu < 48 || cu > 57 {
            proof { assert(!is_digit(t@[i as int])); }
            return None;
        }
        let d = (cu - 48) as usize;
        proof {
            assert(t@.take(i as int + 1).drop_last() =~= t@.take(i as int));
            assert(t@.take(i as int + 1).last() == t@[i as int]);
            assert(digits_val(t@.take(i as int + 1)) == val * 10 + d);
        }
        let m = match val.checked_mul(10) {
            Some(m) => m,
            None => {
                proof { lemma_digits_val_take_le(t@, i as int + 1); }
                return None;
            },
        };
        let v2 = match m.checked_add(d) {
            Some(v2) => v2,
            None => {
                proof { lemma_digits_val_take_le(t@, i as int + 1); }
                return None;
            },
        };
        val = v2;
        i = i + 1;
    }
    proof { assert(t@.take(n as int) =~= t@); }
    Some(val)
}

/// Decode a vector id into its document id and chunk index. Returns `None`
/// when the string has no `-`, when the trailing segment is empty or not
/// all digits, or when the chunk index does not fit the machine.
pub fn parse_vector_id(vector_id: &str) -> (r: Option<(String, usize)>)
    ensures
        r is Some <==> well_formed_vid(vector_id@),
        r matches Some(p) ==> p.0@ == doc_of(vector_id@)
            && p.1 == digits_val(tail_of(vector_id@)),
{
    let n = vector_id.unicode_len();
    match find_last_dash(vector_id) {
        None => None,
        Some(pos) => {
            let tail = vector_id.substring_char(pos + 1, n);
            proof { assert(tail@ == tail_of(vector_id@)); }
            match parse_decimal(tail) {
                None => None,
                Some(v) => {
                    let doc = vector_id.substring_char(0, pos).to_owned();
                    proof { assert(doc@ == doc_of(vector_id@)); }
                    Some((doc, v))
                },
            }
        },
    }
}

/// The document id of a vector id: everything before the last `-`, or the
/// empty string when there is no `-` at all.
pub fn document_of(vector_id: &str) -> (r: String)
    ensures
        r@ == doc_of(vector_id@),
{
    let n = vector_id.unicode_len();
    match find_last_dash(vector_id) {
        None => {
            let r = String::new();
            proof { assert(r@ =~= doc_of(vector_id@)); }
            r
        },
        Some(pos) => vector_id.substring_char(0, pos).to_owned(),
    }
}

/// The vector ids of all `chunk_count` chunks of a document, in chunk order.
pub fn chunk_ids(document_id: &str, chunk_count: usize) -> (r: Vec<String>)
    ensures
        r@.len() == chunk_count as nat,
        forall|i: int| 0 <= i < chunk_count ==> (#[trigger] r@[i])@ == vid_of(document_id@, i as nat),
{
    let mut out: Vec<String> = Vec::new();
    let mut i: usize = 0;
    while i < chunk_count
        invariant
            i <= chunk_count,
            out@.len() == i as nat,
            forall|j: int| 0 <= j < i ==> (#[trigger] out@[j])@ == vid_of(document_id@, j as nat),
        decreases chunk_count - i,
    {
        let vid = make_vector_id(document_id, i);
        out.push(vid);
        i = i + 1;
    }
    out
}

} // verus!

//! Wire-text codec: decimal rendering of unsigned values, parsing of a
//! single value, and the space-separated value vector sent to every
//! competitor after a round.

use vstd::prelude::*;

verus! {

/// The byte separating values in a broadcast line.
pub const SPACE: u8 = 32;

/// Line terminator appended to every outgoing message.
pub const NEWLINE: u8 = 10;

/// ASCII decimal digit.
pub open spec fn is_digit(b: u8) -> bool {
    48 <= b <= 57
}

/// Decimal digits of `n`, most significant first, no sign and no padding.
pub open spec fn dec_bytes(n: nat) -> Seq<u8>
    decreases n,
{
    if n < 10 {
        seq![(48 + n) as u8]
    } else {
        dec_bytes(n / 10).push((48 + n % 10) as u8)
    }
}

/// Numeric value of a digit string, most significant digit first.
pub open spec fn dec_val(s: Seq<u8>) -> nat
    decreases s.len(),
{
    if s.len() == 0 {
        0
    } else {
        dec_val(s.drop_last()) * 10 + (s.last() - 48) as nat
    }
}

pub proof fn lemma_dec_bytes_digits(n: nat)
    ensures
        dec_bytes(n).len() >= 1,
        forall|i: int| 0 <= i < dec_bytes(n).len() ==> is_digit(#[trigger] dec_bytes(n)[i]),
    decreases n,
{
    if n < 10 {
    } else {
        lemma_dec_bytes_digits(n / 10);
    }
}

/// Rendering and re-reading a value is the identity.
pub proof fn lemma_dec_val_of_dec_bytes(n: nat)
    ensures
        dec_val(dec_bytes(n)) == n,
    decreases n,
{
    if n < 10 {
        assert(dec_bytes(n).last() == (48 + n) as u8);
        assert(dec_bytes(n).drop_last().len() == 0);
        assert(dec_val(dec_bytes(n).drop_last()) == 0);
        assert(((48 + n) as u8 - 48) as nat == n);
        assert(dec_val(dec_bytes(n)) == n);
    } else {
        lemma_dec_val_of_dec_bytes(n / 10);
        assert(dec_bytes(n / 10).push((48 + n % 10) as u8).drop_last() =~= dec_bytes(n / 10));
        assert(n % 10 < 10);
        assert(dec_bytes(n).last() == (48 + n % 10) as u8);
        assert(((48 + n % 10) as u8 - 48) as nat == n % 10);
        assert(dec_val(dec_bytes(n)) == (n / 10) * 10 + n % 10);
        vstd::arithmetic::div_mod::lemma_fundamental_div_mod(n as int, 10);
    }
}

/// A longer digit string never has a smaller value than any of its prefixes.
pub proof fn lemma_dec_val_prefix(s: Seq<u8>, i: int)
    requires
        0 <= i <= s.len(),
    ensures
        dec_val(s) >= dec_val(s.take(i)),
    decreases s.len() - i,
{
    if i == s.len() {
        assert(s.take(i) =~= s);
    } else {
        lemma_dec_val_prefix(s, i + 1);
        assert(s.take(i + 1).drop_last() =~= s.take(i));
        assert(dec_val(s.take(i + 1)) == dec_val(s.take(i)) * 10 + (s.take(i + 1).last() - 48) as nat);
    }
}

/// Appends the decimal digits of `n` to `out`.
pub fn push_dec(n: u32, out: &mut Vec<u8>)
    ensures
        final(out)@ == old(out)@ + dec_bytes(n as nat),
    decreases n,
{
    if n >= 10 {
        push_dec(n / 10, out);
        let d: u8 = (n % 10) as u8;
        out.push(48 + d);
        proof {
            assert(out@ =~= old(out)@ + dec_bytes(n as nat));
        }
    } else {
        let d: u8 = n as u8;
        out.push(48 + d);
        proof {
            assert(out@ =~= old(out)@ + dec_bytes(n as nat));
        }
    }
}

/// The broadcast payload for a value vector: decimal values joined by a
/// single space, empty when there are no values, no terminator.
pub open spec fn spec_encode(nums: Seq<u32>) -> Seq<u8>
    decreases nums.len(),
{
    if nums.len() == 0 {
        Seq::empty()
    } else if nums.len() == 1 {
        dec_bytes(nums[0] as nat)
    } else {
        dec_bytes(nums[0] as nat) + seq![SPACE] + spec_encode(nums.drop_first())
    }
}

pub proof fn lemma_encode_snoc(nums: Seq<u32>, x: u32)
    ensures
        nums.len() == 0 ==> spec_encode(nums.push(x)) == dec_bytes(x as nat),
        nums.len() > 0 ==> spec_encode(nums.push(x)) =~= spec_encode(nums) + seq![SPACE]
            + dec_bytes(x as nat),
    decreases nums.len(),
{
    if nums.len() == 0 {
        assert(nums.push(x)[0] == x);
    } else if nums.len() == 1 {
        assert(nums.push(x).drop_first() =~= nums.drop_first().push(x));
        assert(nums.drop_first().push(x) =~= seq![x]);
        assert(spec_encode(seq![x]) == dec_bytes(x as nat));
    } else {
        lemma_encode_snoc(nums.drop_first(), x);
        assert(nums.push(x).drop_first() =~= nums.drop_first().push(x));
    }
}

/// Builds the space-separated decimal payload for `nums`.
pub fn encode_nums(nums: &Vec<u32>) -> (r: Vec<u8>)
    ensures
        r@ == spec_encode(nums@),
{
    let mut out: Vec<u8> = Vec::new();
    let mut i: usize = 0;
    while i < nums.len()
        invariant
            i <= nums@.len(),
            out@ == spec_encode(nums@.take(i as int)),
        decreases nums@.len() - i,
    {
        if i > 0 {
            out.push(SPACE);
        }
        push_dec(nums[i], &mut out);
        proof {
            lemma_encode_snoc(nums@.take(i as int), nums@[i as int]);
            assert(nums@.take(i + 1 as int) =~= nums@.take(i as int).push(nums@[i as int]));
            if i > 0 {
                assert(out@ =~= spec_encode(nums@.take(i as int)) + seq![SPACE] + dec_bytes(
                    nums@[i as int] as nat,
                ));
            }
        }
        i = i + 1;
    }
    proof {
        assert(nums@.take(nums@.len() as int) =~= nums@);
    }
    out
}

/// ASCII whitespace, as the line reader strips it from both ends.
pub open spec fn is_ws(b: u8) -> bool {
    b == 32 || b == 9 || b == 10 || b == 13
}

pub open spec fn trim_front(s: Seq<u8>) -> Seq<u8>
    decreases s.len(),
{
    if s.len() > 0 && is_ws(s[0]) {
        trim_front(s.drop_first())
    } else {
        s
    }
}

pub open spec fn trim_back(s: Seq<u8>) -> Seq<u8>
    decreases s.len(),
{
    if s.len() > 0 && is_ws(s.last()) {
        trim_back(s.drop_last())
    } else {
        s
    }
}

/// The line with leading and trailing ASCII whitespace removed.
pub open spec fn trimmed(s: Seq<u8>) -> Seq<u8> {
    trim_back(trim_front(s))
}

pub proof fn lemma_trim_front_skip(s: Seq<u8>, i: int)
    requires
        0 <= i <= s.len(),
        forall|k: int| 0 <= k < i ==> is_ws(s[k]),
        i < s.len() ==> !is_ws(s[i]),
    ensures
        trim_front(s) =~= s.skip(i),
    decreases i,
{
    if i == 0 {
        assert(s.skip(0) =~= s);
    } else {
        let d = s.drop_first();
        assert(forall|k: int| 0 <= k < i - 1 ==> d[k] == s[k + 1]);
        assert(i - 1 < d.len() ==> d[i - 1] == s[i]);
        lemma_trim_front_skip(d, i - 1);
        assert(d.skip(i - 1) =~= s.skip(i));
    }
}

pub proof fn lemma_trim_back_take(s: Seq<u8>, i: int)
    requires
        0 <= i <= s.len(),
        forall|k: int| i <= k < s.len() ==> is_ws(s[k]),
        i > 0 ==> !is_ws(s[i - 1]),
    ensures
        trim_back(s) =~= s.take(i),
    decreases s.len(),
{
    if i == s.len() {
        assert(s.take(i) =~= s);
    } else {
        let d = s.drop_last();
        assert(forall|k: int| i <= k < d.len() ==> d[k] == s[k]);
        assert(i > 0 ==> d[i - 1] == s[i - 1]);
        lemma_trim_back_take(d, i);
        assert(d.take(i) =~= s.take(i));
    }
}

fn ws_byte(b: u8) -> (r: bool)
    ensures
        r == is_ws(b),
{
    b == 32 || b == 9 || b == 10 || b == 13
}

/// Strips leading and trailing ASCII whitespace, as the line reader does
/// before interpreting anything a competitor sent.
pub fn trim_ascii(s: &Vec<u8>) -> (r: Vec<u8>)
    ensures
        r@ == trimmed(s@),
{
    let n = s.len();
    let mut lo: usize = 0;
    while lo < n && ws_byte(s[lo])
        invariant
            lo <= n,
            n == s@.len(),
            forall|k: int| 0 <= k < lo ==> is_ws(s@[k]),
        decreases n - lo,
    {
        lo = lo + 1;
    }
    let mut hi: usize = n;
    while hi > lo && ws_byte(s[hi - 1])
        invariant
            lo <= hi <= n,
            n == s@.len(),
            forall|k: int| hi <= k < n ==> is_ws(s@[k]),
        decreases hi,
    {
        hi = hi - 1;
    }
    let mut out: Vec<u8> = Vec::new();
    let mut i = lo;
    while i < hi
        invariant
            lo <= i <= hi <= n,
            n == s@.len(),
            out@ == s@.subrange(lo as int, i as int),
        decreases hi - i,
    {
        out.push(s[i]);
        proof {
            assert(out@ =~= s@.subrange(lo as int, i + 1 as int));
        }
        i = i + 1;
    }
    proof {
        lemma_trim_front_skip(s@, lo as int);
        let f = s@.skip(lo as int);
        assert(forall|k: int| hi - lo <= k < f.len() ==> f[k] == s@[k + lo]);
        assert(hi - lo > 0 ==> f[hi - lo - 1] == s@[hi - 1]);
        lemma_trim_back_take(f, hi - lo);
        assert(f.take(hi - lo) =~= s@.subrange(lo as int, hi as int));
        assert(out@ =~= trimmed(s@));
    }
    out
}

/// Byte-wise equality of two lines.
pub fn bytes_eq(a: &Vec<u8>, b: &Vec<u8>) -> (r: bool)
    ensures
        r == (a@ == b@),
{
    if a.len() != b.len() {
        return false;
    }
    let mut i: usize = 0;
    while i < a.len()
        invariant
            i <= a@.len(),
            a@.len() == b@.len(),
            forall|k: int| 0 <= k < i ==> a@[k] == b@[k],
        decreases a@.len() - i,
    {
        if a[i] != b[i] {
            return false;
        }
        i = i + 1;
    }
    proof {
        assert(a@ =~= b@);
    }
    true
}

/// A value token: decimal digits, optionally preceded by one `+` sign,
/// never empty.  This is exactly what the steady-state guess reader accepts.
pub open spec fn is_num_token(t: Seq<u8>) -> bool {
    if t.len() > 0 && t[0] == 43 {
        t.len() > 1 && forall|i: int| 1 <= i < t.len() ==> is_digit(#[trigger] t[i])
    } else {
        t.len() > 0 && forall|i: int| 0 <= i < t.len() ==> is_digit(#[trigger] t[i])
    }
}

/// The digit part of a token, with any leading `+` removed.
pub open spec fn token_digits(t: Seq<u8>) -> Seq<u8> {
    if t.len() > 0 && t[0] == 43 {
        t.drop_first()
    } else {
        t
    }
}

/// Numeric value of a token.
pub open spec fn token_val(t: Seq<u8>) -> nat {
    dec_val(token_digits(t))
}

/// Parses `s[from..to]` as one unsigned decimal value.  Returns `Some`
/// exactly when the range is a well-formed token whose value fits in `u32`.
pub fn parse_u32_range(s: &Vec<u8>, from: usize, to: usize) -> (r: Option<u32>)
    requires
        from <= to <= s@.len(),
    ensures
        match r {
            Some(v) => is_num_token(s@.subrange(from as int, to as int)) && token_val(
                s@.subrange(from as int, to as int),
            ) <= u32::MAX && v as nat == token_val(s@.subrange(from as int, to as int)),
            None => !(is_num_token(s@.subrange(from as int, to as int)) && token_val(
                s@.subrange(from as int, to as int),
            ) <= u32::MAX),
        },
{
    let ghost t = s@.subrange(from as int, to as int);
    let mut p = from;
    if p < to && s[p] == 43 {
        p = p + 1;
    }
    proof {
        assert(token_digits(t) =~= s@.subrange(p as int, to as int));
    }
    if p == to {
        // no digits at all: the token is empty or a bare sign
        return None;
    }
    let ghost digits = s@.subrange(p as int, to as int);
    let mut acc: u64 = 0;
    let mut i = p;
    while i < to
        invariant
            from <= p <= i <= to <= s@.len(),
            t == s@.subrange(from as int, to as int),
            digits == s@.subrange(p as int, to as int),
            p as int == if t.len() > 0 && t[0] == 43 {
                from + 1 as int
            } else {
                from as int
            },
            acc as nat == dec_val(s@.subrange(p as int, i as int)),
            acc <= u32::MAX,
            forall|k: int| p <= k < i ==> is_digit(#[trigger] s@[k]),
        decreases to - i,
    {
        let b = s[i];
        if !(48 <= b && b <= 57) {
            proof {
                assert(t[i - from] == s@[i as int]);
                assert(!is_digit(t[i - from]));
                if t.len() > 0 && t[0] == 43 {
                    assert(1 <= i - from < t.len());
                    assert(!is_num_token(t));
                } else {
                    assert(0 <= i - from < t.len());
                    assert(!is_num_token(t));
                }
            }
            return None;
        }
        let d: u64 = (b - 48) as u64;
        proof {
            assert(s@.subrange(p as int, i + 1 as int).drop_last() =~= s@.subrange(
                p as int,
                i as int,
            ));
            assert(s@.subrange(p as int, i + 1 as int).last() == s@[i as int]);
        }
        acc = acc * 10 + d;
        if acc > u32::MAX as u64 {
            proof {
                assert(dec_val(s@.subrange(p as int, i + 1 as int)) > u32::MAX);
                lemma_dec_val_prefix(digits, i + 1 - p);
                assert(digits.take(i + 1 - p) =~= s@.subrange(p as int, i + 1 as int));
                assert(token_digits(t) =~= digits);
                assert(token_val(t) > u32::MAX);
            }
            return None;
        }
        i = i + 1;
    }
    proof {
        assert(s@.subrange(p as int, to as int) =~= digits);
        assert(forall|k: int| 0 <= k < digits.len() ==> is_digit(#[trigger] digits[k]));
        if t.len() > 0 && t[0] == 43 {
            assert(forall|k: int| 1 <= k < t.len() ==> t[k] == digits[k - 1]);
            assert(is_num_token(t));
        } else {
            assert(forall|k: int| 0 <= k < t.len() ==> t[k] == digits[k]);
            assert(is_num_token(t));
        }
    }
    Some(acc as u32)
}

/// Parses a whole line as one unsigned decimal value.
pub fn parse_u32(s: &Vec<u8>) -> (r: Option<u32>)
    ensures
        match r {
            Some(v) => is_num_token(s@) && token_val(s@) <= u32::MAX && v as nat == token_val(s@),
            None => !(is_num_token(s@) && token_val(s@) <= u32::MAX),
        },
{
    let r = parse_u32_range(s, 0, s.len());
    proof {
        assert(s@.subrange(0, s@.len() as int) =~= s@);
    }
    r
}

/// Splits a line at every space byte.  A line of `n` spaces yields `n + 1`
/// tokens; tokens may be empty.
pub open spec fn split_sp(s: Seq<u8>) -> Seq<Seq<u8>>
    decreases s.len(),
{
    if s.len() == 0 {
        seq![Seq::<u8>::empty()]
    } else if s[0] == SPACE {
        seq![Seq::<u8>::empty()] + split_sp(s.drop_first())
    } else {
        let rest = split_sp(s.drop_first());
        seq![seq![s[0]] + rest[0]] + rest.drop_first()
    }
}

pub proof fn lemma_split_nonempty(s: Seq<u8>)
    ensures
        split_sp(s).len() >= 1,
    decreases s.len(),
{
    if s.len() == 0 {
    } else {
        lemma_split_nonempty(s.drop_first());
    }
}

/// A line without spaces is one single token.
pub proof fn lemma_split_no_space(s: Seq<u8>)
    requires
        forall|i: int| 0 <= i < s.len() ==> s[i] != SPACE,
    ensures
        split_sp(s) =~~= seq![s],
    decreases s.len(),
{
    if s.len() == 0 {
    } else {
        lemma_split_no_space(s.drop_first());
        assert(seq![s[0]] + s.drop_first() =~= s);
    }
}

/// Splitting consumes a space-free prefix as the first token.
pub proof fn lemma_split_prefix(a: Seq<u8>, b: Seq<u8>)
    requires
        forall|i: int| 0 <= i < a.len() ==> a[i] != SPACE,
    ensures
        split_sp(a + seq![SPACE] + b) =~~= seq![a] + split_sp(b),
    decreases a.len(),
{
    let s = a + seq![SPACE] + b;
    if a.len() == 0 {
        assert(s[0] == SPACE);
        assert(s.drop_first() =~= b);
        assert(a =~= Seq::<u8>::empty());
    } else {
        lemma_split_prefix(a.drop_first(), b);
        assert(s[0] == a[0]);
        assert(s.drop_first() =~= a.drop_first() + seq![SPACE] + b);
        let rest = split_sp(s.drop_first());
        assert(rest =~~= seq![a.drop_first()] + split_sp(b));
        lemma_split_nonempty(b);
        assert(rest[0] == a.drop_first());
        assert(seq![s[0]] + rest[0] =~= a);
        assert(rest.drop_first() =~~= split_sp(b));
    }
}

/// A well-formed broadcast line: empty, or every space-separated token a
/// value token that fits in `u32`.
pub open spec fn is_nums_line(s: Seq<u8>) -> bool {
    s.len() == 0 || forall|k: int|
        0 <= k < split_sp(s).len() ==> is_num_token(#[trigger] split_sp(s)[k]) && token_val(
            split_sp(s)[k],
        ) <= u32::MAX
}

/// The values carried by a well-formed broadcast line, in order.
pub open spec fn line_values(s: Seq<u8>) -> Seq<u32> {
    if s.len() == 0 {
        Seq::empty()
    } else {
        Seq::new(split_sp(s).len(), |k: int| token_val(split_sp(s)[k]) as u32)
    }
}

pub proof fn lemma_encode_len(nums: Seq<u32>)
    requires
        nums.len() >= 1,
    ensures
        spec_encode(nums).len() >= 1,
    decreases nums.len(),
{
    lemma_dec_bytes_digits(nums[0] as nat);
}

/// Splitting an encoded vector recovers exactly the digit strings.
pub proof fn lemma_split_encode(nums: Seq<u32>)
    requires
        nums.len() >= 1,
    ensures
        split_sp(spec_encode(nums)) =~~= Seq::new(nums.len(), |k: int| dec_bytes(nums[k] as nat)),
    decreases nums.len(),
{
    lemma_dec_bytes_digits(nums[0] as nat);
    if nums.len() == 1 {
        lemma_split_no_space(dec_bytes(nums[0] as nat));
    } else {
        lemma_split_encode(nums.drop_first());
        lemma_split_prefix(dec_bytes(nums[0] as nat), spec_encode(nums.drop_first()));
    }
}

pub proof fn lemma_encode_ends_in_digit(nums: Seq<u32>)
    requires
        nums.len() >= 1,
    ensures
        is_digit(spec_encode(nums).first()),
        is_digit(spec_encode(nums).last()),
    decreases nums.len(),
{
    lemma_dec_bytes_digits(nums[0] as nat);
    if nums.len() == 1 {
    } else {
        lemma_encode_ends_in_digit(nums.drop_first());
        lemma_encode_len(nums.drop_first());
        assert(spec_encode(nums).last() == spec_encode(nums.drop_first()).last());
    }
}

/// Broadcasting a value vector and parsing the line back reproduces the
/// vector exactly.
pub proof fn lemma_broadcast_round_trip(nums: Seq<u32>)
    ensures
        is_nums_line(spec_encode(nums)),
        line_values(spec_encode(nums)) == nums,
{
    if nums.len() == 0 {
        assert(line_values(spec_encode(nums)) =~= nums);
    } else {
        lemma_encode_len(nums);
        lemma_split_encode(nums);
        let toks = split_sp(spec_encode(nums));
        assert forall|k: int| 0 <= k < toks.len() implies is_num_token(#[trigger] toks[k])
            && token_val(toks[k]) <= u32::MAX by {
            lemma_dec_bytes_digits(nums[k] as nat);
            lemma_dec_val_of_dec_bytes(nums[k] as nat);
            assert(toks[k] == dec_bytes(nums[k] as nat));
            assert(token_digits(toks[k]) == toks[k]);
        }
        assert forall|k: int| 0 <= k < nums.len() implies line_values(spec_encode(nums))[k]
            == nums[k] by {
            lemma_dec_bytes_digits(nums[k] as nat);
            lemma_dec_val_of_dec_bytes(nums[k] as nat);
            assert(toks[k] == dec_bytes(nums[k] as nat));
            assert(token_digits(toks[k]) == toks[k]);
            assert(token_val(toks[k]) == nums[k] as nat);
        }
        assert(line_values(spec_encode(nums)) =~= nums);
    }
}

/// Parses a broadcast line back into its value vector.  Returns `Some`
/// exactly when the line is well formed.
pub fn parse_nums(s: &Vec<u8>) -> (r: Option<Vec<u32>>)
    ensures
        match r {
            Some(v) => is_nums_line(s@) && v@ == line_values(s@),
            None => !is_nums_line(s@),
        },
{
    if s.len() == 0 {
        let r: Vec<u32> = Vec::new();
        proof {
            assert(r@ =~= line_values(s@));
        }
        return Some(r);
    }
    let ghost toks = split_sp(s@);
    let mut acc: Vec<u32> = Vec::new();
    let ghost mut done: Seq<Seq<u8>> = Seq::empty();
    let mut pos: usize = 0;
    proof {
        assert(s@.skip(0) =~= s@);
    }
    loop
        invariant
            pos <= s@.len(),
            s@.len() > 0,
            toks == split_sp(s@),
            toks =~~= done + split_sp(s@.skip(pos as int)),
            done.len() == acc@.len(),
            forall|k: int|
                0 <= k < done.len() ==> is_num_token(#[trigger] toks[k]) && token_val(toks[k])
                    <= u32::MAX && acc@[k] as nat == token_val(toks[k]),
        decreases s@.len() - pos,
    {
        let mut j: usize = pos;
        while j < s.len() && s[j] != SPACE
            invariant
                pos <= j <= s@.len(),
                forall|k: int| pos <= k < j ==> s@[k] != SPACE,
            decreases s@.len() - j,
        {
            j = j + 1;
        }
        let ghost rem = s@.skip(pos as int);
        let ghost t = s@.subrange(pos as int, j as int);
        proof {
            lemma_split_nonempty(s@.skip(pos as int));
            if j == s@.len() {
                assert(rem =~= t);
                lemma_split_no_space(rem);
            } else {
                assert(s@[j as int] == SPACE);
                assert(rem =~= t + seq![SPACE] + s@.skip(j + 1 as int));
                lemma_split_prefix(t, s@.skip(j + 1 as int));
            }
            lemma_split_nonempty(s@.skip(j + 1 as int));
            assert(split_sp(rem)[0] == t);
            assert(toks[done.len() as int] == t);
        }
        let v = match parse_u32_range(s, pos, j) {
            Some(v) => v,
            None => {
                proof {
                    assert(0 <= done.len() < toks.len());
                    assert(!(is_num_token(toks[done.len() as int]) && token_val(
                        toks[done.len() as int],
                    ) <= u32::MAX));
                }
                return None;
            },
        };
        acc.push(v);
        proof {
            done = done.push(t);
        }
        if j == s.len() {
            proof {
                assert(split_sp(rem) =~~= seq![t]);
                assert(toks =~~= done);
                assert forall|k: int| 0 <= k < toks.len() implies is_num_token(
                    #[trigger] toks[k],
                ) && token_val(toks[k]) <= u32::MAX by {}
                assert forall|k: int| 0 <= k < toks.len() implies acc@[k] == line_values(s@)[k]
                    by {
                    assert(acc@[k] as nat == token_val(toks[k]));
                }
                assert(acc@ =~= line_values(s@));
            }
            return Some(acc);
        }
        pos = j + 1;
        proof {
            assert(toks =~~= done + split_sp(s@.skip(pos as int)));
        }
    }
}

} // verus!

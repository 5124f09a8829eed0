//! Decimal text primitives: digit sequences, whitespace trimming,
//! unsigned and signed fixed-point readers and writers.
//!
//! SP3 carries every fractional quantity in fixed columns with a fixed
//! number of decimal digits, so each field is held as an exact scaled
//! integer: a field with `k` decimal digits scaled by `10^k`.
use vstd::prelude::*;

verus! {

/// One power of ten, as a mathematical integer.
pub open spec fn pow10(k: nat) -> int
    decreases k,
{
    if k == 0 {
        1
    } else {
        10 * pow10((k - 1) as nat)
    }
}

pub proof fn lemma_pow10_pos(k: nat)
    ensures
        pow10(k) >= 1,
    decreases k,
{
    if k > 0 {
        lemma_pow10_pos((k - 1) as nat);
    }
}


pub open spec fn is_digit_char(c: char) -> bool {
    48 <= c as u32 && c as u32 <= 57
}

/// Numeric value of one decimal digit character.
pub open spec fn digit_val(c: char) -> int {
    c as u32 - 48
}

/// The decimal digit character for a value in `0..=9`.
pub open spec fn digit_char(d: int) -> char {
    if d == 0 {
        '0'
    } else if d == 1 {
        '1'
    } else if d == 2 {
        '2'
    } else if d == 3 {
        '3'
    } else if d == 4 {
        '4'
    } else if d == 5 {
        '5'
    } else if d == 6 {
        '6'
    } else if d == 7 {
        '7'
    } else if d == 8 {
        '8'
    } else {
        '9'
    }
}

pub proof fn lemma_digit_char_val(d: int)
    requires
        0 <= d <= 9,
    ensures
        is_digit_char(digit_char(d)),
        digit_val(digit_char(d)) == d,
{
}

pub open spec fn all_digits(s: Seq<char>) -> bool {
    forall|i: int| 0 <= i < s.len() ==> is_digit_char(#[trigger] s[i])
}

/// Value of a run of decimal digit characters, most significant first.
pub open spec fn digits_val(s: Seq<char>) -> int
    decreases s.len(),
{
    if s.len() == 0 {
        0
    } else {
        digits_val(s.drop_last()) * 10 + digit_val(s.last())
    }
}

pub proof fn lemma_digits_val_bounds(s: Seq<char>)
    requires
        all_digits(s),
    ensures
        0 <= digits_val(s) < pow10(s.len()),
    decreases s.len(),
{
    if s.len() > 0 {
        assert(all_digits(s.drop_last())) by {
            assert(forall|i: int|
                0 <= i < s.len() - 1 ==> is_digit_char(#[trigger] s.drop_last()[i]));
        }
        lemma_digits_val_bounds(s.drop_last());
        assert(is_digit_char(s.last()));
        assert(pow10(s.len()) == 10 * pow10((s.len() - 1) as nat));
    }
}

pub proof fn lemma_digits_val_concat(a: Seq<char>, b: Seq<char>)
    ensures
        digits_val(a + b) == digits_val(a) * pow10(b.len()) + digits_val(b),
    decreases b.len(),
{
    if b.len() == 0 {
        assert(a + b =~= a);
    } else {
        lemma_digits_val_concat(a, b.drop_last());
        let x = digits_val(a);
        let y = digits_val(b.drop_last());
        let p = pow10(b.drop_last().len());
        assert((a + b).drop_last() =~= a + b.drop_last());
        assert((a + b).last() == b.last());
        assert(digits_val(a + b) == (x * p + y) * 10 + digit_val(b.last()));
        assert(b.drop_last().len() == b.len() - 1);
        assert(pow10(b.len()) == 10 * p);
        assert(digits_val(b) == y * 10 + digit_val(b.last()));
        assert(digits_val(a + b) == x * pow10(b.len()) + digits_val(b)) by (nonlinear_arith)
            requires
                digits_val(a + b) == (x * p + y) * 10 + digit_val(b.last()),
                pow10(b.len()) == 10 * p,
                digits_val(b) == y * 10 + digit_val(b.last()),
        ;
    }
}

/// A run of `m` zero characters.
pub open spec fn zeros(m: nat) -> Seq<char> {
    Seq::new(m, |i: int| '0')
}

pub proof fn lemma_zeros_val(m: nat)
    ensures
        all_digits(zeros(m)),
        digits_val(zeros(m)) == 0,
    decreases m,
{
    if m > 0 {
        lemma_zeros_val((m - 1) as nat);
        assert(zeros(m).drop_last() =~= zeros((m - 1) as nat));
    }
}

/// Shortest decimal rendering of a non-negative integer.
pub open spec fn dec_str(n: nat) -> Seq<char>
    decreases n,
{
    if n < 10 {
        seq![digit_char(n as int)]
    } else {
        dec_str(n / 10) + seq![digit_char(n as int % 10)]
    }
}

pub proof fn lemma_dec_str(n: nat)
    ensures
        all_digits(dec_str(n)),
        digits_val(dec_str(n)) == n,
        dec_str(n).len() >= 1,
    decreases n,
{
    if n < 10 {
        lemma_digit_char_val(n as int);
        let s = seq![digit_char(n as int)];
        assert(dec_str(n) == s);
        assert(s.drop_last() =~= Seq::<char>::empty());
        assert(digits_val(s) == digits_val(s.drop_last()) * 10 + digit_val(s.last()));
        assert(digits_val(s.drop_last()) == 0);
        assert(s.last() == digit_char(n as int));
    } else {
        lemma_dec_str(n / 10);
        lemma_digit_char_val(n as int % 10);
        let s = dec_str(n / 10) + seq![digit_char(n as int % 10)];
        assert(dec_str(n) == s);
        assert(s.drop_last() =~= dec_str(n / 10));
        assert(s.last() == digit_char(n as int % 10));
        assert(forall|i: int| 0 <= i < s.len() ==> is_digit_char(#[trigger] s[i]));
        assert(digits_val(s) == digits_val(dec_str(n / 10)) * 10 + digit_val(digit_char(n as int % 10)));
        assert(n as int == (n / 10) * 10 + n as int % 10) by (nonlinear_arith);
    }
}

pub proof fn lemma_dec_str_len(n: nat, k: nat)
    requires
        k >= 1,
        n < pow10(k),
    ensures
        dec_str(n).len() <= k,
    decreases n,
{
    if n < 10 {
    } else {
        assert(k >= 2) by {
            if k == 1 {
                assert(pow10(0nat) == 1);
                assert(pow10(1nat) == 10);
            }
        }
        assert(n / 10 < pow10((k - 1) as nat)) by (nonlinear_arith)
            requires n >= 10, pow10(k) == 10 * pow10((k - 1) as nat), n < pow10(k),
        ;
        lemma_dec_str_len(n / 10, (k - 1) as nat);
    }
}

pub open spec fn is_space_char(c: char) -> bool {
    c == ' ' || c == '\t'
}

/// What `str::trim` leaves of an ASCII field: both ends stripped of blanks.
pub open spec fn spec_trim(s: Seq<char>) -> Seq<char>
    decreases s.len(),
{
    if s.len() == 0 {
        s
    } else if is_space_char(s[0]) {
        spec_trim(s.drop_first())
    } else if is_space_char(s.last()) {
        spec_trim(s.drop_last())
    } else {
        s
    }
}

/// Trimming a sequence whose blanks sit exactly outside `lo..hi` yields `lo..hi`.
pub proof fn lemma_trim_region(s: Seq<char>, lo: int, hi: int)
    requires
        0 <= lo <= hi <= s.len(),
        forall|i: int| 0 <= i < lo ==> is_space_char(#[trigger] s[i]),
        forall|i: int| hi <= i < s.len() ==> is_space_char(#[trigger] s[i]),
        lo < hi ==> !is_space_char(s[lo]) && !is_space_char(s[hi - 1]),
    ensures
        spec_trim(s) == s.subrange(lo, hi),
    decreases s.len(),
{
    if s.len() == 0 {
        assert(s.subrange(lo, hi) =~= s);
    } else if lo == hi {
        assert(is_space_char(s[0]));
        lemma_trim_region(s.drop_first(), if lo > 0 { lo - 1 } else { 0 }, if lo > 0 { hi - 1 } else { 0 });
        assert(s.subrange(lo, hi) =~= Seq::<char>::empty());
        assert(s.drop_first().subrange(if lo > 0 { lo - 1 } else { 0 }, if lo > 0 { hi - 1 } else { 0 }) =~= Seq::<char>::empty());
    } else if lo > 0 {
        assert(is_space_char(s[0]));
        lemma_trim_region(s.drop_first(), lo - 1, hi - 1);
        assert(s.drop_first().subrange(lo - 1, hi - 1) =~= s.subrange(lo, hi));
    } else if hi < s.len() {
        assert(!is_space_char(s[0]));
        assert(is_space_char(s.last()));
        lemma_trim_region(s.drop_last(), lo, hi);
        assert(s.drop_last().subrange(lo, hi) =~= s.subrange(lo, hi));
    } else {
        assert(spec_trim(s) == s);
        assert(s.subrange(lo, hi) =~= s);
    }
}

/// Trimming never lengthens a field.
pub proof fn lemma_trim_len(s: Seq<char>)
    ensures
        spec_trim(s).len() <= s.len(),
    decreases s.len(),
{
    if s.len() > 0 {
        if is_space_char(s[0]) {
            lemma_trim_len(s.drop_first());
        } else if is_space_char(s.last()) {
            lemma_trim_len(s.drop_last());
        }
    }
}

/// A field with no blank at either end, as trimming leaves it.
pub open spec fn no_edge_blanks(s: Seq<char>) -> bool {
    s.len() > 0 ==> (!is_space_char(s[0]) && !is_space_char(s.last()))
}

/// Trimming trims: what it leaves has clean edges.
pub proof fn lemma_trim_ends(s: Seq<char>)
    ensures
        no_edge_blanks(spec_trim(s)),
    decreases s.len(),
{
    if s.len() > 0 {
        if is_space_char(s[0]) {
            lemma_trim_ends(s.drop_first());
        } else if is_space_char(s.last()) {
            lemma_trim_ends(s.drop_last());
        }
    }
}

/// Left-padding with a fill character up to width `w`.
pub open spec fn pad_left(s: Seq<char>, w: nat, c: char) -> Seq<char> {
    if s.len() >= w {
        s
    } else {
        Seq::new((w - s.len()) as nat, |i: int| c) + s
    }
}

/// A blank-padded field trims back to the padded text.
pub proof fn lemma_trim_pad_left(t: Seq<char>, w: nat)
    requires
        t.len() > 0,
        !is_space_char(t[0]),
        !is_space_char(t.last()),
    ensures
        spec_trim(pad_left(t, w, ' ')) == t,
{
    let p = pad_left(t, w, ' ');
    if t.len() >= w {
        lemma_trim_region(t, 0, t.len() as int);
        assert(t.subrange(0, t.len() as int) =~= t);
    } else {
        let m = (w - t.len()) as int;
        assert(forall|i: int| 0 <= i < m ==> is_space_char(#[trigger] p[i]));
        assert(p[m] == t[0]);
        assert(p[p.len() - 1] == t.last());
        lemma_trim_region(p, m, p.len() as int);
        assert(p.subrange(m, p.len() as int) =~= t);
    }
}

/// A blank-padded clean field trims back to the field, also when empty.
pub proof fn lemma_trim_padded(t: Seq<char>, w: nat)
    requires
        no_edge_blanks(t),
    ensures
        spec_trim(pad_left(t, w, ' ')) == t,
{
    if t.len() == 0 {
        let p = pad_left(t, w, ' ');
        assert(forall|i: int| 0 <= i < p.len() ==> p[i] == ' ' && is_space_char(#[trigger] p[i]));
        lemma_trim_region(p, 0, 0);
        assert(p.subrange(0, 0) =~= t);
    } else {
        lemma_trim_pad_left(t, w);
    }
}


/// A digit run is at least as large as any of its prefixes.
pub proof fn lemma_digits_val_prefix(t: Seq<char>, j: int)
    requires
        all_digits(t),
        0 <= j <= t.len(),
    ensures
        digits_val(t) >= digits_val(t.take(j)),
{
    let a = t.take(j);
    let b = t.skip(j);
    assert(t =~= a + b);
    lemma_digits_val_concat(a, b);
    assert(all_digits(a)) by {
        assert(forall|i: int| 0 <= i < a.len() ==> a[i] == t[i] && is_digit_char(#[trigger] a[i]));
    }
    assert(all_digits(b)) by {
        assert(forall|i: int| 0 <= i < b.len() ==> b[i] == t[j + i] && is_digit_char(#[trigger] b[i]));
    }
    lemma_digits_val_bounds(a);
    lemma_digits_val_bounds(b);
    lemma_pow10_pos(b.len());
    assert(digits_val(a) * pow10(b.len()) >= digits_val(a)) by (nonlinear_arith)
        requires digits_val(a) >= 0, pow10(b.len()) >= 1,
    ;
}

/// Whether a blank-trimmed field is a plain run of decimal digits
/// whose value does not exceed `max`.
pub open spec fn uint_field_ok(s: Seq<char>, max: int) -> bool {
    let t = spec_trim(s);
    t.len() > 0 && all_digits(t) && digits_val(t) <= max
}

/// The value of such a field.
pub open spec fn uint_field_val(s: Seq<char>) -> int {
    digits_val(spec_trim(s))
}

fn is_space(c: char) -> (r: bool)
    ensures
        r == is_space_char(c),
{
    c == ' ' || c == '\t'
}

/// The index range that `str::trim` would keep.
pub fn trim_range(s: &str) -> (r: (usize, usize))
    ensures
        r.0 <= r.1 <= s@.len(),
        spec_trim(s@) == s@.subrange(r.0 as int, r.1 as int),
        r.0 < r.1 ==> !is_space_char(s@[r.0 as int]) && !is_space_char(s@[r.1 - 1]),
{
    let n = s.unicode_len();
    let mut lo: usize = 0;
    while lo < n && is_space(s.get_char(lo))
        invariant
            lo <= n,
            n == s@.len(),
            forall|i: int| 0 <= i < lo ==> is_space_char(#[trigger] s@[i]),
        decreases n - lo,
    {
        lo = lo + 1;
    }
    let mut hi: usize = n;
    while hi > lo && is_space(s.get_char(hi - 1))
        invariant
            lo <= hi <= n,
            n == s@.len(),
            forall|i: int| hi <= i < n ==> is_space_char(#[trigger] s@[i]),
        decreases hi,
    {
        hi = hi - 1;
    }
    proof {
        lemma_trim_region(s@, lo as int, hi as int);
    }
    (lo, hi)
}

/// Reads a blank-padded unsigned decimal field, rejecting values above `max`.
#[verifier::spinoff_prover]
#[verifier::rlimit(60)]
pub fn parse_uint(s: &str, max: u64) -> (r: Option<u64>)
    ensures
        r is Some <==> uint_field_ok(s@, max as int),
        r matches Some(v) ==> v as int == uint_field_val(s@),
{
    let (lo, hi) = trim_range(s);
    let ghost t = spec_trim(s@);
    if lo == hi {
        return None;
    }
    let mut acc: u64 = 0;
    let mut i = lo;
    while i < hi
        invariant
            lo <= i <= hi <= s@.len(),
            lo < hi,
            t == spec_trim(s@),
            t == s@.subrange(lo as int, hi as int),
            acc <= max,
            acc as int == digits_val(t.take(i - lo)),
            all_digits(t.take(i - lo)),
        decreases hi - i,
    {
        let c = s.get_char(i);
        proof {
            assert(t[i - lo] == s@[i as int]);
        }
        if !is_digit(c) {
            return None;
        }
        let d = (c as u32 - 48) as u64;
        proof {
            assert(all_digits(t.take(i - lo + 1))) by {
                assert(forall|q: int|
                    0 <= q < i - lo + 1 ==> is_digit_char(#[trigger] t.take(i - lo + 1)[q])
                        == is_digit_char(t[q]));
            }
        }
        match mul10_add(acc, d, max, Ghost(t), Ghost(i - lo as int)) {
            Some(a) => {
                acc = a;
            },
            None => {
                return None;
            },
        }
        i = i + 1;
    }
    proof {
        assert(t.take(hi - lo) =~= t);
    }
    Some(acc)
}

/// Index of the first occurrence of `c`, or the length when absent.
pub open spec fn find_char(s: Seq<char>, c: char) -> int
    decreases s.len(),
{
    if s.len() == 0 {
        0
    } else if s[0] == c {
        0
    } else {
        1 + find_char(s.drop_first(), c)
    }
}


pub proof fn lemma_find_char_at(s: Seq<char>, c: char, idx: int)
    requires
        0 <= idx <= s.len(),
        forall|i: int| 0 <= i < idx ==> s[i] != c,
        idx < s.len() ==> s[idx] == c,
    ensures
        find_char(s, c) == idx,
    decreases s.len(),
{
    if s.len() == 0 {
    } else if idx == 0 && s[0] == c {
    } else {
        lemma_find_char_at(s.drop_first(), c, idx - 1);
    }
}

/// The trimmed field split into an explicit sign and the rest.
pub open spec fn sign_of(t: Seq<char>) -> bool {
    t.len() > 0 && t[0] == '-'
}

pub open spec fn body_of(t: Seq<char>) -> Seq<char> {
    if t.len() > 0 && (t[0] == '-' || t[0] == '+') {
        t.drop_first()
    } else {
        t
    }
}

/// Integer digits of the field body.
pub open spec fn int_part(t: Seq<char>) -> Seq<char> {
    body_of(t).take(find_char(body_of(t), '.'))
}

/// Fraction digits of the field body (empty when there is no point).
pub open spec fn frac_part(t: Seq<char>) -> Seq<char> {
    let b = body_of(t);
    let dot = find_char(b, '.');
    if dot < b.len() {
        b.subrange(dot + 1, b.len() as int)
    } else {
        Seq::empty()
    }
}

/// Fraction digits cut or zero-filled to exactly `k` places.
pub open spec fn frac_scaled(f: Seq<char>, k: nat) -> Seq<char> {
    if f.len() >= k {
        f.take(k as int)
    } else {
        f + zeros((k - f.len()) as nat)
    }
}

/// The digit run whose value is the field value scaled by `10^k`.
pub open spec fn fixed_digits(t: Seq<char>, k: nat) -> Seq<char> {
    int_part(t) + frac_scaled(frac_part(t), k)
}

/// Whether a trimmed-and-signed decimal field is well formed: an optional
/// sign, at least one integer digit, an optional point followed by digit
/// fraction places, with the scaled magnitude within `max_abs`.
pub open spec fn fixed_field_ok(s: Seq<char>, k: nat, max_abs: int) -> bool {
    let t = spec_trim(s);
    int_part(t).len() > 0 && all_digits(int_part(t)) && all_digits(frac_part(t))
        && digits_val(fixed_digits(t, k)) <= max_abs
}

/// The field value scaled by `10^k`, sign applied.
pub open spec fn fixed_field_val(s: Seq<char>, k: nat) -> int {
    let t = spec_trim(s);
    if sign_of(t) {
        -digits_val(fixed_digits(t, k))
    } else {
        digits_val(fixed_digits(t, k))
    }
}

fn is_digit(c: char) -> (r: bool)
    ensures
        r == is_digit_char(c),
{
    let v = c as u32;
    48 <= v && v <= 57
}

/// Reads a signed decimal field as an integer scaled by `10^scale`:
/// fraction digits beyond `scale` places are ignored, missing ones count
/// as zero.  Values whose scaled magnitude exceeds `max_abs` are rejected.
pub proof fn lemma_find_char_spec(s: Seq<char>, c: char)
    ensures
        0 <= find_char(s, c) <= s.len(),
        find_char(s, c) < s.len() ==> s[find_char(s, c)] == c,
        forall|i: int| 0 <= i < find_char(s, c) ==> s[i] != c,
    decreases s.len(),
{
    if s.len() > 0 && s[0] != c {
        lemma_find_char_spec(s.drop_first(), c);
        assert forall|i: int| 0 <= i < find_char(s, c) implies s[i] != c by {
            if i > 0 {
                assert(s.drop_first()[i - 1] == s[i]);
                assert(i - 1 < find_char(s.drop_first(), c));
            }
        }
    }
}

/// The end of the run of digit characters that starts at `from`.
fn scan_digits(s: &str, from: usize, hi: usize) -> (j: usize)
    requires
        from <= hi <= s@.len(),
    ensures
        from <= j <= hi,
        forall|i: int| from <= i < j ==> is_digit_char(#[trigger] s@[i]),
        j < hi ==> !is_digit_char(s@[j as int]),
{
    let mut j = from;
    while j < hi && is_digit(s.get_char(j))
        invariant
            from <= j <= hi <= s@.len(),
            forall|i: int| from <= i < j ==> is_digit_char(#[trigger] s@[i]),
        decreases hi - j,
    {
        j = j + 1;
    }
    j
}

/// Reads a signed decimal field as an integer scaled by `10^scale`:
/// fraction digits beyond `scale` places are ignored, missing ones count
/// as zero.  Values whose scaled magnitude exceeds `max_abs` are rejected.
#[verifier::spinoff_prover]
#[verifier::rlimit(100)]
pub fn parse_fixed(s: &str, scale: usize, max_abs: u64) -> (r: Option<i64>)
    requires
        max_abs <= i64::MAX,
    ensures
        r is Some <==> fixed_field_ok(s@, scale as nat, max_abs as int),
        r matches Some(v) ==> v as int == fixed_field_val(s@, scale as nat),
{
    let (lo, hi) = trim_range(s);
    let ghost t = spec_trim(s@);
    let mut neg = false;
    let mut p = lo;
    if p < hi {
        let c = s.get_char(p);
        if c == '-' {
            neg = true;
            p = p + 1;
        } else if c == '+' {
            p = p + 1;
        }
    }
    let ghost b = body_of(t);
    proof {
        assert(b =~= s@.subrange(p as int, hi as int));
        assert(neg == sign_of(t));
        lemma_find_char_spec(b, '.');
    }
    let ghost dot = find_char(b, '.');
    // the integer digits
    let j = scan_digits(s, p, hi);
    proof {
        assert(forall|i: int| 0 <= i < j - p ==> b[i] == s@[p + i] && is_digit_char(#[trigger] b[i]));
    }
    if j == p {
        // no leading digit: either the field is empty, starts with the
        // point, or starts with a stray character
        proof {
            if p < hi && dot != 0 {
                assert(b[0] == s@[p as int]);
                assert(!is_digit_char(b[0]));
                assert(int_part(t)[0] == b[0]);
            }
        }
        return None;
    }
    if j < hi {
        let c = s.get_char(j);
        if c != '.' {
            // a non-digit other than the point inside the field
            proof {
                assert(b[j - p] == s@[j as int]);
                assert(!is_digit_char(b[j - p]) && b[j - p] != '.');
                assert(dot != j - p);
                assert(forall|i: int| 0 <= i < j - p ==> b[i] != '.');
                assert(dot > j - p);
                assert(int_part(t).len() > j - p);
                assert(int_part(t)[j - p] == b[j - p]);
                assert(!all_digits(int_part(t)));
            }
            return None;
        }
    }
    proof {
        assert(forall|i: int| 0 <= i < j - p ==> b[i] != '.');
        if j < hi {
            assert(b[j - p] == s@[j as int]);
            lemma_find_char_at(b, '.', j - p);
        } else {
            lemma_find_char_at(b, '.', j - p);
        }
        assert(dot == j - p);
        assert(int_part(t) =~= b.take(dot));
        assert(int_part(t) =~= s@.subrange(p as int, j as int));
        assert(all_digits(int_part(t)));
    }
    // the fraction digits
    let fstart = if j < hi { j + 1 } else { j };
    let ghost f = frac_part(t);
    proof {
        assert(f =~= s@.subrange(fstart as int, hi as int));
    }
    let q = scan_digits(s, fstart, hi);
    if q < hi {
        proof {
            assert(f[q - fstart] == s@[q as int]);
            assert(!all_digits(f));
        }
        return None;
    }
    proof {
        assert(forall|i: int| 0 <= i < f.len() ==> f[i] == s@[fstart + i] && is_digit_char(#[trigger] f[i]));
    }
    accumulate_scaled(s, p, j, fstart, hi, scale, max_abs, neg, Ghost(t))
}

/// Accumulates the scaled digit run of a validated field and applies the sign.
#[verifier::spinoff_prover]
#[verifier::rlimit(100)]
fn accumulate_scaled(
    s: &str,
    p: usize,
    j: usize,
    fstart: usize,
    hi: usize,
    scale: usize,
    max_abs: u64,
    neg: bool,
    t: Ghost<Seq<char>>,
) -> (r: Option<i64>)
    requires
        max_abs <= i64::MAX,
        p <= j <= fstart <= hi <= s@.len(),
        t@ == spec_trim(s@),
        neg == sign_of(t@),
        int_part(t@) == s@.subrange(p as int, j as int),
        frac_part(t@) == s@.subrange(fstart as int, hi as int),
        int_part(t@).len() > 0,
        all_digits(int_part(t@)),
        all_digits(frac_part(t@)),
    ensures
        r is Some <==> fixed_field_ok(s@, scale as nat, max_abs as int),
        r matches Some(v) ==> v as int == fixed_field_val(s@, scale as nat),
{
    let ghost f = frac_part(t@);
    let ghost fsc = frac_scaled(f, scale as nat);
    let ghost digs = fixed_digits(t@, scale as nat);
    let ilen = j - p;
    let flen = hi - fstart;
    proof {
        assert(all_digits(fsc)) by {
            if f.len() >= scale as nat {
                assert(forall|i: int|
                    0 <= i < fsc.len() ==> fsc[i] == f[i] && is_digit_char(#[trigger] fsc[i]));
            } else {
                assert(forall|i: int|
                    0 <= i < fsc.len() ==> is_digit_char(#[trigger] fsc[i]) == (if i < f.len() {
                        is_digit_char(f[i])
                    } else {
                        is_digit_char('0')
                    }));
            }
        }
        assert(digs.len() == ilen + scale);
        assert(all_digits(digs)) by {
            assert(forall|i: int|
                0 <= i < digs.len() ==> digs[i] == (if i < ilen {
                    int_part(t@)[i]
                } else {
                    fsc[i - ilen]
                }));
        }
        assert(forall|i: int| 0 <= i < ilen ==> digs[i] == s@[p + i]);
        assert(forall|i: int|
            ilen <= i < digs.len() ==> digs[i] == (if i - ilen < flen && i - ilen < scale {
                s@[fstart + (i - ilen)]
            } else {
                '0'
            }));
    }
    let mut acc: u64 = 0;
    let mut m: usize = 0;
    let ghost gd = digs;
    while m < ilen
        invariant
            0 <= m <= ilen,
            ilen == j - p,
            p + ilen <= s@.len(),
            max_abs <= i64::MAX,
            gd == digs,
            gd == fixed_digits(spec_trim(s@), scale as nat),
            gd.len() == ilen + scale,
            all_digits(gd),
            acc <= max_abs,
            acc as int == digits_val(gd.take(m as int)),
            forall|i: int| 0 <= i < ilen ==> gd[i] == s@[p + i],
        decreases ilen - m,
    {
        let c = s.get_char(p + m);
        proof {
            assert(gd[m as int] == s@[p + m as int]);
            assert(is_digit_char(gd[m as int]));
        }
        let d = (c as u32 - 48) as u64;
        proof {
            assert(all_digits(gd.take(m as int + 1))) by {
                assert(forall|i: int|
                    0 <= i < m + 1 ==> is_digit_char(#[trigger] gd.take(m as int + 1)[i])
                        == is_digit_char(gd[i]));
            }
        }
        match mul10_add(acc, d, max_abs, Ghost(gd), Ghost(m as int)) {
            Some(a) => {
                acc = a;
            },
            None => {
                return None;
            },
        }
        m = m + 1;
    }
    let mut m2: usize = 0;
    while m2 < scale
        invariant
            0 <= m2 <= scale,
            ilen == j - p,
            fstart + flen <= s@.len(),
            flen == hi - fstart,
            max_abs <= i64::MAX,
            gd == digs,
            gd == fixed_digits(spec_trim(s@), scale as nat),
            gd.len() == ilen + scale,
            all_digits(gd),
            acc <= max_abs,
            acc as int == digits_val(gd.take(ilen + m2)),
            forall|i: int|
                ilen <= i < gd.len() ==> gd[i] == (if i - ilen < flen && i - ilen < scale {
                    s@[fstart + (i - ilen)]
                } else {
                    '0'
                }),
        decreases scale - m2,
    {
        let d: u64;
        if m2 < flen {
            let c = s.get_char(fstart + m2);
            proof {
                assert(gd[ilen + m2] == s@[fstart + m2 as int]);
                assert(is_digit_char(gd[ilen + m2]));
            }
            d = (c as u32 - 48) as u64;
        } else {
            d = 0;
            proof {
                assert(gd[ilen + m2] == '0');
                assert(digit_val('0') == 0);
            }
        }
        proof {
            assert(all_digits(gd.take(ilen + m2 + 1))) by {
                assert(forall|i: int|
                    0 <= i < ilen + m2 + 1 ==> is_digit_char(#[trigger] gd.take(ilen + m2 + 1)[i])
                        == is_digit_char(gd[i]));
            }
        }
        match mul10_add(acc, d, max_abs, Ghost(gd), Ghost(ilen + m2)) {
            Some(a) => {
                acc = a;
            },
            None => {
                return None;
            },
        }
        m2 = m2 + 1;
    }
    proof {
        assert(digs.take(digs.len() as int) =~= digs);
    }
    let v = acc as i64;
    if neg {
        Some(-v)
    } else {
        Some(v)
    }
}

/// One step of most-significant-first accumulation, bounded by `max_abs`.
fn mul10_add(acc: u64, d: u64, max_abs: u64, digs: Ghost<Seq<char>>, m: Ghost<int>) -> (r: Option<
    u64,
>)
    requires
        acc <= max_abs,
        d <= 9,
        0 <= m@ < digs@.len(),
        all_digits(digs@.take(m@ + 1)),
        acc as int == digits_val(digs@.take(m@)),
        d == digit_val(digs@[m@]),
    ensures
        r matches Some(a) ==> a <= max_abs && a as int == digits_val(digs@.take(m@ + 1)),
        r is None ==> all_digits(digs@) ==> digits_val(digs@) > max_abs,
{
    proof {
        assert(digs@.take(m@ + 1).drop_last() =~= digs@.take(m@));
        assert(digs@.take(m@ + 1).last() == digs@[m@]);
        assert(digits_val(digs@.take(m@ + 1)) == acc * 10 + d);
    }
    let ghost gmax = max_abs as int;
    if acc > max_abs / 10 || (acc == max_abs / 10 && d > max_abs % 10) {
        proof {
            assert(acc * 10 + d > gmax) by (nonlinear_arith)
                requires
                    acc > gmax / 10 || (acc == gmax / 10 && d > gmax % 10),
                    gmax == (gmax / 10) * 10 + gmax % 10,
                    0 <= d <= 9,
                    acc >= 0,
            ;
            if all_digits(digs@) {
                lemma_digits_val_prefix(digs@, m@ + 1);
            }
        }
        None
    } else {
        proof {
            assert(acc * 10 + d <= gmax) by (nonlinear_arith)
                requires
                    acc <= gmax / 10,
                    acc == gmax / 10 ==> d <= gmax % 10,
                    gmax == (gmax / 10) * 10 + gmax % 10,
                    0 <= d <= 9,
                    acc >= 0,
            ;
        }
        Some(acc * 10 + d)
    }
}

pub proof fn lemma_pow10_mono(a: nat, b: nat)
    requires
        a <= b,
    ensures
        pow10(a) <= pow10(b),
    decreases b,
{
    if a < b {
        lemma_pow10_mono(a, (b - 1) as nat);
        lemma_pow10_pos((b - 1) as nat);
    }
}

fn digit_str(d: u64) -> (r: &'static str)
    requires
        d <= 9,
    ensures
        r@ == seq![digit_char(d as int)],
{
    let r: &'static str = if d == 0 {
        "0"
    } else if d == 1 {
        "1"
    } else if d == 2 {
        "2"
    } else if d == 3 {
        "3"
    } else if d == 4 {
        "4"
    } else if d == 5 {
        "5"
    } else if d == 6 {
        "6"
    } else if d == 7 {
        "7"
    } else if d == 8 {
        "8"
    } else {
        "9"
    };
    proof {
        reveal_strlit("0");
        reveal_strlit("1");
        reveal_strlit("2");
        reveal_strlit("3");
        reveal_strlit("4");
        reveal_strlit("5");
        reveal_strlit("6");
        reveal_strlit("7");
        reveal_strlit("8");
        reveal_strlit("9");
        assert(r@ =~= seq![digit_char(d as int)]);
    }
    r
}

/// Writes a non-negative integer in the shortest decimal form.
pub fn fmt_uint(n: u64) -> (r: String)
    ensures
        r@ == dec_str(n as nat),
    decreases n,
{
    if n < 10 {
        let d = digit_str(n);
        d.to_owned()
    } else {
        let mut s = fmt_uint(n / 10);
        s.append(digit_str(n % 10));
        proof {
            assert(n / 10 < n);
            assert(dec_str(n as nat) == dec_str(n as nat / 10) + seq![digit_char(n as int % 10)]);
            assert(n as nat / 10 == (n / 10) as nat);
        }
        s
    }
}

fn fill(w: usize, zero: bool) -> (r: String)
    ensures
        r@ == Seq::new(w as nat, |i: int| if zero { '0' } else { ' ' }),
{
    let ghost c = if zero { '0' } else { ' ' };
    let mut s = String::new();
    let mut i: usize = 0;
    proof {
        assert(s@ =~= Seq::new(0, |k: int| c));
    }
    while i < w
        invariant
            i <= w,
            c == (if zero { '0' } else { ' ' }),
            s@ == Seq::new(i as nat, |k: int| c),
        decreases w - i,
    {
        if zero {
            s.append("0");
        } else {
            s.append(" ");
        }
        proof {
            reveal_strlit("0");
            reveal_strlit(" ");
            assert(s@ =~= Seq::new((i + 1) as nat, |k: int| c));
        }
        i = i + 1;
    }
    s
}

/// Left-pads to width `w` with blanks, or zeroes for zero-filled fields.
pub fn pad_str(s: String, w: usize, zero: bool) -> (r: String)
    ensures
        r@ == pad_left(s@, w as nat, if zero { '0' } else { ' ' }),
{
    let n = s.as_str().unicode_len();
    if n >= w {
        s
    } else {
        let mut p = fill(w - n, zero);
        p.append(s.as_str());
        p
    }
}

pub fn pow10_u64(k: usize) -> (r: u64)
    requires
        k <= 19,
    ensures
        r as int == pow10(k as nat),
{
    let mut r: u64 = 1;
    let mut i: usize = 0;
    while i < k
        invariant
            i <= k <= 19,
            r as int == pow10(i as nat),
        decreases k - i,
    {
        proof {
            lemma_pow10_mono(i as nat, 18);
            assert(pow10(18) == 1000000000000000000) by {
                reveal_with_fuel(pow10, 20);
            }
        }
        r = r * 10;
        i = i + 1;
    }
    r
}

/// Canonical signed fixed-point text with exactly `k` fraction digits.
pub open spec fn fixed_str(v: int, k: nat) -> Seq<char> {
    let a = if v < 0 { -v } else { v };
    let sgn: Seq<char> = if v < 0 { seq!['-'] } else { Seq::empty() };
    sgn + dec_str((a / pow10(k)) as nat) + seq!['.'] + pad_left(
        dec_str((a % pow10(k)) as nat),
        k,
        '0',
    )
}

/// Writes a scaled integer as a signed decimal with `k` fraction digits,
/// blank-padded to width `w`.
pub fn fmt_fixed(v: i64, k: usize, w: usize) -> (r: String)
    requires
        v != i64::MIN,
        k <= 18,
    ensures
        r@ == pad_left(fixed_str(v as int, k as nat), w as nat, ' '),
{
    let neg = v < 0;
    let a: u64 = if neg {
        (-v) as u64
    } else {
        v as u64
    };
    let p = pow10_u64(k);
    proof {
        lemma_pow10_pos(k as nat);
    }
    let ip = a / p;
    let fp = a % p;
    let mut s = if neg {
        let t: String = "-".to_owned();
        proof {
            reveal_strlit("-");
        }
        t
    } else {
        String::new()
    };
    let ipart = fmt_uint(ip);
    s.append(ipart.as_str());
    s.append(".");
    proof {
        reveal_strlit(".");
    }
    let fpart = pad_str(fmt_uint(fp), k, true);
    s.append(fpart.as_str());
    proof {
        assert(s@ =~= fixed_str(v as int, k as nat));
    }
    pad_str(s, w, false)
}

/// A blank-padded shortest decimal field reads back as the written value.
pub proof fn lemma_uint_round_trip(n: nat, w: nat, max: int)
    requires
        n <= max,
    ensures
        uint_field_ok(pad_left(dec_str(n), w, ' '), max),
        uint_field_val(pad_left(dec_str(n), w, ' ')) == n,
{
    lemma_dec_str(n);
    let t = dec_str(n);
    assert(!is_space_char(t[0]) && !is_space_char(t.last()));
    lemma_trim_pad_left(t, w);
}

/// A zero-filled decimal field reads back as the written value.
pub proof fn lemma_uint_zero_pad_round_trip(n: nat, w: nat, max: int)
    requires
        n <= max,
    ensures
        uint_field_ok(pad_left(dec_str(n), w, '0'), max),
        uint_field_val(pad_left(dec_str(n), w, '0')) == n,
{
    lemma_dec_str(n);
    let t = dec_str(n);
    let s = pad_left(t, w, '0');
    if t.len() >= w {
        lemma_trim_region(s, 0, s.len() as int);
        assert(s.subrange(0, s.len() as int) =~= s);
    } else {
        let m = (w - t.len()) as nat;
        assert(Seq::new(m, |i: int| '0') =~= zeros(m));
        lemma_zeros_val(m);
        assert(all_digits(s)) by {
            assert(forall|i: int|
                0 <= i < s.len() ==> is_digit_char(#[trigger] s[i]) == (if i < m {
                    is_digit_char(zeros(m)[i])
                } else {
                    is_digit_char(t[i - m])
                }));
        }
        lemma_trim_region(s, 0, s.len() as int);
        assert(s.subrange(0, s.len() as int) =~= s);
        assert(s =~= zeros(m) + t);
        lemma_digits_val_concat(zeros(m), t);
    }
}

/// A blank-padded canonical fixed-point field reads back as the written
/// scaled value.
pub proof fn lemma_fixed_round_trip(v: int, k: nat, w: nat, max: int)
    requires
        k >= 1,
        -max <= v <= max,
    ensures
        fixed_field_ok(pad_left(fixed_str(v, k), w, ' '), k, max),
        fixed_field_val(pad_left(fixed_str(v, k), w, ' '), k) == v,
{
    let a = if v < 0 { -v } else { v };
    let p = pow10(k);
    lemma_pow10_pos(k);
    let ip = (a / p) as nat;
    let fp = (a % p) as nat;
    vstd::arithmetic::div_mod::lemma_fundamental_div_mod(a, p);
    assert(a == p * (a / p) + a % p);
    lemma_dec_str(ip);
    lemma_dec_str(fp);
    lemma_digits_val_bounds(dec_str(fp));
    lemma_dec_str_len(fp, k);
    let istr = dec_str(ip);
    let fstr = pad_left(dec_str(fp), k, '0');
    let zcount = (k - dec_str(fp).len()) as nat;
    assert(fstr.len() == k);
    lemma_zeros_val(zcount);
    assert(fstr =~= zeros(zcount) + dec_str(fp));
    assert(all_digits(fstr)) by {
        assert(forall|i: int|
            0 <= i < fstr.len() ==> is_digit_char(#[trigger] fstr[i]) == (if i < zcount {
                is_digit_char(zeros(zcount)[i])
            } else {
                is_digit_char(dec_str(fp)[i - zcount])
            }));
    }
    lemma_digits_val_concat(zeros(zcount), dec_str(fp));
    assert(digits_val(fstr) == fp);
    let sgn: Seq<char> = if v < 0 { seq!['-'] } else { Seq::empty() };
    let t = fixed_str(v, k);
    assert(t == sgn + istr + seq!['.'] + fstr);
    // both ends of the canonical text are non-blank
    assert(t.len() == sgn.len() + istr.len() + 1 + k);
    assert(t[0] == (if v < 0 { '-' } else { istr[0] }));
    assert(t.last() == fstr.last());
    assert(is_digit_char(fstr.last()));
    assert(!is_space_char(t[0]));
    assert(!is_space_char(t.last()));
    lemma_trim_pad_left(t, w);
    // the body splits at the point
    let b = body_of(t);
    assert(b =~= istr + seq!['.'] + fstr);
    assert(sign_of(t) == (v < 0));
    assert(forall|i: int| 0 <= i < istr.len() ==> b[i] == istr[i] && #[trigger] is_digit_char(b[i]));
    assert(b[istr.len() as int] == '.');
    assert(forall|i: int| 0 <= i < istr.len() ==> b[i] != '.');
    lemma_find_char_at(b, '.', istr.len() as int);
    assert(int_part(t) =~= istr);
    assert(frac_part(t) =~= fstr);
    assert(frac_scaled(fstr, k) =~= fstr);
    assert(fixed_digits(t, k) == istr + fstr);
    lemma_digits_val_concat(istr, fstr);
    assert(digits_val(fixed_digits(t, k)) == ip * pow10(k) + fp);
    assert(ip * pow10(k) == pow10(k) * ip) by (nonlinear_arith);
    assert(digits_val(fixed_digits(t, k)) == a);
}

} // verus!

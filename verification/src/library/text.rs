use vstd::prelude::*;
use vstd::string::StringSliceAdditionalSpecFns;

verus! {

/// The byte of the blank.
pub const BLANK: u8 = 0x20;

/// The ASCII digit for `d` in `0..10`.
pub open spec fn digit_byte(d: int) -> u8 {
    (d + 0x30) as u8
}

/// The lowercase hexadecimal digit for `d` in `0..16`.
pub open spec fn hex_digit_byte(d: int) -> u8 {
    if d < 10 {
        (d + 0x30) as u8
    } else {
        (d - 10 + 0x61) as u8
    }
}

/// `n` in decimal, without leading zeros.
pub open spec fn decimal(n: nat) -> Seq<u8>
    decreases n,
{
    if n < 10 {
        seq![digit_byte(n as int)]
    } else {
        decimal(n / 10).push(digit_byte((n % 10) as int))
    }
}

/// `n` in lowercase hexadecimal, without leading zeros.
pub open spec fn hex(n: nat) -> Seq<u8>
    decreases n,
{
    if n < 16 {
        seq![hex_digit_byte(n as int)]
    } else {
        hex(n / 16).push(hex_digit_byte((n % 16) as int))
    }
}

/// `s` padded on the left with `fill` to at least `width` bytes.
pub open spec fn pad_left(s: Seq<u8>, width: nat, fill: u8) -> Seq<u8> {
    if s.len() >= width {
        s
    } else {
        Seq::new((width - s.len()) as nat, |i: int| fill) + s
    }
}

/// An ASCII decimal digit.
pub open spec fn is_digit(b: u8) -> bool {
    0x30 <= b <= 0x39
}

/// White space as `char::is_whitespace` has it in ASCII: tab, line feed, vertical
/// tab, form feed, carriage return and blank.
pub open spec fn is_space(b: u8) -> bool {
    (0x09 <= b <= 0x0d) || b == BLANK
}

/// The number that the decimal digits `s` spell.
pub open spec fn digits_value(s: Seq<u8>) -> nat
    decreases s.len(),
{
    if s.len() == 0 {
        0
    } else {
        digits_value(s.drop_last()) * 10 + (s.last() - 0x30) as nat
    }
}

/// `s` without a leading `+`.
pub open spec fn unsigned_digits(s: Seq<u8>) -> Seq<u8> {
    if s.len() > 0 && s[0] == 0x2b {
        s.drop_first()
    } else {
        s
    }
}

/// All bytes of `s` are decimal digits.
pub open spec fn all_digits(s: Seq<u8>) -> bool {
    forall|i: int| 0 <= i < s.len() ==> is_digit(#[trigger] s[i])
}

/// What `str::parse` gives for an unsigned integer type whose largest value is
/// `max`: an optional `+`, then at least one decimal digit and nothing else, of
/// a value that fits.
pub open spec fn parse_unsigned(s: Seq<u8>, max: nat) -> Option<nat> {
    let d = unsigned_digits(s);
    if d.len() > 0 && all_digits(d) && digits_value(d) <= max {
        Some(digits_value(d))
    } else {
        None
    }
}

/// `s` without white space at its start.
pub open spec fn trim_start(s: Seq<u8>) -> Seq<u8>
    decreases s.len(),
{
    if s.len() > 0 && is_space(s[0]) {
        trim_start(s.drop_first())
    } else {
        s
    }
}

/// `s` without white space at its end.
pub open spec fn trim_end(s: Seq<u8>) -> Seq<u8>
    decreases s.len(),
{
    if s.len() > 0 && is_space(s.last()) {
        trim_end(s.drop_last())
    } else {
        s
    }
}

/// `s` without white space at either end.
pub open spec fn trim(s: Seq<u8>) -> Seq<u8> {
    trim_end(trim_start(s))
}

/// The bytes of a string literal or slice.
pub open spec fn bytes_of(s: &str) -> Seq<u8> {
    s.spec_bytes()
}

/// Append the bytes of `s`.
pub fn push_str(out: &mut Vec<u8>, s: &str)
    ensures
        final(out)@ == old(out)@ + bytes_of(s),
{
    let b = s.as_bytes();
    let mut i: usize = 0;
    while i < b.len()
        invariant
            b@ == bytes_of(s),
            i <= b@.len(),
            out@ == old(out)@ + b@.subrange(0, i as int),
        decreases b@.len() - i,
    {
        out.push(b[i]);
        i = i + 1;
        assert(out@ == old(out)@ + b@.subrange(0, i as int));
    }
    assert(b@.subrange(0, b@.len() as int) == b@);
}

/// Append `s`.
pub fn push_bytes(out: &mut Vec<u8>, s: &[u8])
    ensures
        final(out)@ == old(out)@ + s@,
{
    let mut i: usize = 0;
    while i < s.len()
        invariant
            i <= s@.len(),
            out@ == old(out)@ + s@.subrange(0, i as int),
        decreases s@.len() - i,
    {
        out.push(s[i]);
        i = i + 1;
        assert(out@ == old(out)@ + s@.subrange(0, i as int));
    }
    assert(s@.subrange(0, s@.len() as int) == s@);
}

/// Append `n` in decimal.
pub fn push_decimal(out: &mut Vec<u8>, n: u64)
    ensures
        final(out)@ == old(out)@ + decimal(n as nat),
    decreases n,
{
    if n >= 10 {
        push_decimal(out, n / 10);
    }
    let d = (n % 10) as u8;
    out.push(d + 0x30);
    proof {
        if n >= 10 {
            assert(old(out)@ + decimal((n / 10) as nat) + seq![digit_byte((n % 10) as int)] == old(out)@
                + decimal(n as nat));
        } else {
            assert(old(out)@.push(digit_byte(n as int)) == old(out)@ + decimal(n as nat));
        }
    }
}

/// Append `n` in lowercase hexadecimal.
pub fn push_hex(out: &mut Vec<u8>, n: u64)
    ensures
        final(out)@ == old(out)@ + hex(n as nat),
    decreases n,
{
    if n >= 16 {
        push_hex(out, n / 16);
    }
    let d = (n % 16) as u8;
    let b = if d < 10 {
        d + 0x30
    } else {
        d - 10 + 0x61
    };
    out.push(b);
    proof {
        if n >= 16 {
            assert(old(out)@ + hex((n / 16) as nat) + seq![hex_digit_byte((n % 16) as int)] == old(out)@
                + hex(n as nat));
        } else {
            assert(old(out)@.push(hex_digit_byte(n as int)) == old(out)@ + hex(n as nat));
        }
    }
}

/// `n` in decimal.
pub fn decimal_text(n: u64) -> (r: Vec<u8>)
    ensures
        r@ == decimal(n as nat),
{
    let mut out: Vec<u8> = Vec::new();
    push_decimal(&mut out, n);
    assert(out@ == Seq::<u8>::empty() + decimal(n as nat));
    out
}

/// Append `s` padded on the left with `fill` to at least `width` bytes.
pub fn push_padded(out: &mut Vec<u8>, s: &Vec<u8>, width: usize, fill: u8)
    ensures
        final(out)@ == old(out)@ + pad_left(s@, width as nat, fill),
{
    let mut k: usize = s.len();
    while k < width
        invariant
            s@.len() <= k <= if width > s@.len() { width as int } else { s@.len() as int },
            out@ == old(out)@ + Seq::new((k - s@.len()) as nat, |i: int| fill),
        decreases width - k,
    {
        out.push(fill);
        k = k + 1;
        assert(out@ == old(out)@ + Seq::new((k - s@.len()) as nat, |i: int| fill));
    }
    let ghost before = out@;
    push_bytes(out, s.as_slice());
    assert(out@ == old(out)@ + pad_left(s@, width as nat, fill)) by {
        if s@.len() >= width {
            assert(before == old(out)@ + Seq::<u8>::empty());
            assert(before == old(out)@);
        } else {
            assert(before == old(out)@ + Seq::new((width - s@.len()) as nat, |i: int| fill));
        }
    }
}

/// A decimal number is all digits, never starts with `+`, and spells its value.
pub proof fn lemma_decimal_digits(n: nat)
    ensures
        decimal(n).len() > 0,
        all_digits(decimal(n)),
        digits_value(decimal(n)) == n,
    decreases n,
{
    assert(((n % 10) + 0x30) as u8 == (n % 10) + 0x30);
    if n >= 10 {
        lemma_decimal_digits(n / 10);
        let d = decimal(n);
        assert(d.drop_last() == decimal(n / 10));
        assert(d.last() == digit_byte((n % 10) as int));
        assert(d.last() - 0x30 == n % 10);
        assert(digits_value(d) == digits_value(d.drop_last()) * 10 + (d.last() - 0x30) as nat);
        assert((n / 10) * 10 + n % 10 == n);
    } else {
        let d = decimal(n);
        assert(d.drop_last() == Seq::<u8>::empty());
        assert(d.last() == digit_byte(n as int));
        assert(d.last() - 0x30 == n);
        assert(digits_value(d) == digits_value(d.drop_last()) * 10 + (d.last() - 0x30) as nat);
    }
}

/// Parsing the decimal text of a number that fits gives the number back.
pub proof fn law_parse_decimal_roundtrip(n: nat, max: nat)
    requires
        n <= max,
    ensures
        parse_unsigned(decimal(n), max) == Some(n),
{
    lemma_decimal_digits(n);
    assert(is_digit(decimal(n)[0]));
}

proof fn lemma_digits_value_prefix(s: Seq<u8>, k: int)
    requires
        0 <= k <= s.len(),
        all_digits(s),
    ensures
        digits_value(s.subrange(0, k)) <= digits_value(s),
    decreases s.len() - k,
{
    if k < s.len() {
        lemma_digits_value_prefix(s, k + 1);
        let p = s.subrange(0, k + 1);
        assert(p.drop_last() == s.subrange(0, k));
    } else {
        assert(s.subrange(0, k) == s);
    }
}

/// Parse an unsigned number as `str::parse::<usize>` does.
pub fn parse_usize(s: &[u8]) -> (r: Option<usize>)
    ensures
        r matches Some(v) ==> parse_unsigned(s@, usize::MAX as nat) == Some(v as nat),
        r is None ==> parse_unsigned(s@, usize::MAX as nat) is None,
{
    let start: usize = if s.len() > 0 && s[0] == 0x2b {
        1
    } else {
        0
    };
    let ghost d = unsigned_digits(s@);
    assert(d == s@.subrange(start as int, s@.len() as int));
    if start >= s.len() {
        return None;
    }
    let mut value: usize = 0;
    let mut i: usize = start;
    while i < s.len()
        invariant
            start <= i <= s@.len(),
            d == s@.subrange(start as int, s@.len() as int),
            d == unsigned_digits(s@),
            forall|j: int| start <= j < i ==> is_digit(#[trigger] s@[j]),
            value == digits_value(s@.subrange(start as int, i as int)),
        decreases s@.len() - i,
    {
        let b = s[i];
        if b < 0x30 || b > 0x39 {
            assert(!is_digit(d[i - start]));
            return None;
        }
        let digit = (b - 0x30) as usize;
        assert(s@.subrange(start as int, i + 1).drop_last() == s@.subrange(start as int, i as int));
        assert(s@.subrange(start as int, i + 1).last() == b);
        assert(digits_value(s@.subrange(start as int, i + 1)) == value * 10 + digit);
        let next = value.checked_mul(10);
        match next {
            None => {
                proof {
                    lemma_no_digits_until(s@, start as int, i as int + 1, d);
                }
                return None;
            },
            Some(m) => match m.checked_add(digit) {
                None => {
                    proof {
                        lemma_no_digits_until(s@, start as int, i as int + 1, d);
                    }
                    return None;
                },
                Some(v) => {
                    value = v;
                },
            },
        }
        i = i + 1;
    }
    assert(d == s@.subrange(start as int, i as int));
    Some(value)
}

/// Where the digits of `s` from `start` run up to `k`, the value of that run
/// bounds the value of the whole tail, if the tail is all digits.
proof fn lemma_no_digits_until(s: Seq<u8>, start: int, k: int, d: Seq<u8>)
    requires
        0 <= start < k <= s.len(),
        d == s.subrange(start, s.len() as int),
        forall|j: int| start <= j < k ==> is_digit(#[trigger] s[j]),
        digits_value(s.subrange(start, k)) > usize::MAX,
    ensures
        !all_digits(d) || digits_value(d) > usize::MAX,
{
    if all_digits(d) {
        lemma_digits_value_prefix(d, k - start);
        assert(d.subrange(0, k - start) == s.subrange(start, k));
    }
}

/// The words of `s`: its maximal runs of bytes that are not white space, in order.
pub open spec fn words(s: Seq<u8>) -> Seq<Seq<u8>>
    decreases s.len(),
{
    if s.len() == 0 {
        Seq::empty()
    } else if is_space(s.last()) {
        words(s.drop_last())
    } else if s.len() >= 2 && !is_space(s[s.len() - 2]) {
        let ws = words(s.drop_last());
        ws.update(ws.len() - 1, ws.last().push(s.last()))
    } else {
        words(s.drop_last()).push(seq![s.last()])
    }
}

/// The contents of each of `v`.
pub open spec fn views(v: Seq<Vec<u8>>) -> Seq<Seq<u8>> {
    v.map_values(|w: Vec<u8>| w@)
}

/// A text that ends in a byte that is not white space has at least one word.
proof fn lemma_words_nonempty(s: Seq<u8>)
    requires
        s.len() > 0,
        !is_space(s.last()),
    ensures
        words(s).len() > 0,
    decreases s.len(),
{
    if s.len() >= 2 && !is_space(s[s.len() - 2]) {
        lemma_words_nonempty(s.drop_last());
    }
}

/// The bytes of `s` from `start` to `end`.
pub fn copy_range(s: &[u8], start: usize, end: usize) -> (r: Vec<u8>)
    requires
        start <= end <= s@.len(),
    ensures
        r@ == s@.subrange(start as int, end as int),
{
    let mut out: Vec<u8> = Vec::new();
    let mut i: usize = start;
    while i < end
        invariant
            start <= i <= end,
            end <= s@.len(),
            out@ == s@.subrange(start as int, i as int),
        decreases end - i,
    {
        out.push(s[i]);
        i = i + 1;
        assert(out@ == s@.subrange(start as int, i as int));
    }
    out
}

proof fn lemma_trim_start_step(s: Seq<u8>, i: int)
    requires
        0 <= i < s.len(),
        is_space(s[i]),
    ensures
        trim_start(s.subrange(i, s.len() as int)) == trim_start(s.subrange(i + 1, s.len() as int)),
{
    assert(s.subrange(i, s.len() as int).drop_first() == s.subrange(i + 1, s.len() as int));
}

proof fn lemma_trim_end_step(s: Seq<u8>, i: int, j: int)
    requires
        0 <= i < j <= s.len(),
        is_space(s[j - 1]),
    ensures
        trim_end(s.subrange(i, j)) == trim_end(s.subrange(i, j - 1)),
{
    assert(s.subrange(i, j).drop_last() == s.subrange(i, j - 1));
}

/// `s` without white space at either end.
pub fn trim_bytes(s: &[u8]) -> (r: Vec<u8>)
    ensures
        r@ == trim(s@),
{
    let mut i: usize = 0;
    assert(s@.subrange(0, s@.len() as int) == s@);
    while i < s.len() && (s[i] == BLANK || (0x09 <= s[i] && s[i] <= 0x0d))
        invariant
            i <= s@.len(),
            trim_start(s@) == trim_start(s@.subrange(i as int, s@.len() as int)),
        decreases s@.len() - i,
    {
        proof {
            lemma_trim_start_step(s@, i as int);
        }
        i = i + 1;
    }
    assert(trim_start(s@) == s@.subrange(i as int, s@.len() as int));
    let mut j: usize = s.len();
    while j > i && (s[j - 1] == BLANK || (0x09 <= s[j - 1] && s[j - 1] <= 0x0d))
        invariant
            i <= j <= s@.len(),
            trim_start(s@) == s@.subrange(i as int, s@.len() as int),
            trim(s@) == trim_end(s@.subrange(i as int, j as int)),
        decreases j - i,
    {
        proof {
            lemma_trim_end_step(s@, i as int, j as int);
        }
        j = j - 1;
    }
    assert(trim(s@) == s@.subrange(i as int, j as int));
    copy_range(s, i, j)
}

/// The words of `s`.
pub fn split_whitespace(s: &[u8]) -> (r: Vec<Vec<u8>>)
    ensures
        views(r@) == words(s@),
{
    let mut out: Vec<Vec<u8>> = Vec::new();
    let mut i: usize = 0;
    while i < s.len()
        invariant
            i <= s@.len(),
            views(out@) == words(s@.subrange(0, i as int)),
        decreases s@.len() - i,
    {
        let b = s[i];
        let ghost pre = s@.subrange(0, i as int);
        let ghost cur = s@.subrange(0, i + 1);
        assert(cur.drop_last() == pre);
        assert(cur.last() == b);
        if b == BLANK || (0x09 <= b && b <= 0x0d) {
        } else if i > 0 && !(s[i - 1] == BLANK || (0x09 <= s[i - 1] && s[i - 1] <= 0x0d)) {
            proof {
                assert(cur[cur.len() - 2] == s@[i - 1]);
                assert(pre.last() == s@[i - 1]);
                lemma_words_nonempty(pre);
            }
            let mut last = out.pop().unwrap();
            last.push(b);
            out.push(last);
            proof {
                let ws = words(pre);
                assert(views(out@) == ws.update(ws.len() - 1, ws.last().push(b)));
            }
        } else {
            let mut w: Vec<u8> = Vec::new();
            w.push(b);
            out.push(w);
            proof {
                assert(w@ == seq![b]);
                assert(views(out@) == words(pre).push(seq![b]));
            }
        }
        i = i + 1;
    }
    assert(s@.subrange(0, s@.len() as int) == s@);
    out
}

/// `a` comes before or equals `b` in lexicographic byte order (the order of
/// `str` and `String`).
pub open spec fn lex_le(a: Seq<u8>, b: Seq<u8>) -> bool
    decreases a.len(),
{
    if a.len() == 0 {
        true
    } else if b.len() == 0 {
        false
    } else if a[0] != b[0] {
        a[0] < b[0]
    } else {
        lex_le(a.drop_first(), b.drop_first())
    }
}

/// The byte strings of `s` are in lexicographic order.
pub open spec fn lex_sorted(s: Seq<Seq<u8>>) -> bool {
    forall|i: int, j: int| 0 <= i < j < s.len() ==> lex_le(#[trigger] s[i], #[trigger] s[j])
}

/// Any two byte strings are ordered one way or the other.
pub proof fn lemma_lex_total(a: Seq<u8>, b: Seq<u8>)
    ensures
        lex_le(a, b) || lex_le(b, a),
    decreases a.len(),
{
    if a.len() > 0 && b.len() > 0 && a[0] == b[0] {
        lemma_lex_total(a.drop_first(), b.drop_first());
    }
}

/// Lexicographic order is transitive.
pub proof fn lemma_lex_trans(a: Seq<u8>, b: Seq<u8>, c: Seq<u8>)
    requires
        lex_le(a, b),
        lex_le(b, c),
    ensures
        lex_le(a, c),
    decreases a.len(),
{
    if a.len() > 0 && b.len() > 0 && c.len() > 0 && a[0] == b[0] && b[0] == c[0] {
        lemma_lex_trans(a.drop_first(), b.drop_first(), c.drop_first());
    }
}

/// `a` comes before or equals `b` in lexicographic order.
pub fn bytes_le(a: &Vec<u8>, b: &Vec<u8>) -> (r: bool)
    ensures
        r == lex_le(a@, b@),
{
    let mut i: usize = 0;
    assert(a@.skip(0) == a@ && b@.skip(0) == b@);
    while i < a.len() && i < b.len()
        invariant
            i <= a@.len(),
            i <= b@.len(),
            lex_le(a@, b@) == lex_le(a@.skip(i as int), b@.skip(i as int)),
        decreases a@.len() - i,
    {
        assert(a@.skip(i as int)[0] == a@[i as int]);
        assert(b@.skip(i as int)[0] == b@[i as int]);
        if a[i] != b[i] {
            return a[i] < b[i];
        }
        assert(a@.skip(i as int).drop_first() == a@.skip(i + 1));
        assert(b@.skip(i as int).drop_first() == b@.skip(i + 1));
        i = i + 1;
    }
    i == a.len()
}

/// The byte strings of `v` in lexicographic order.
pub fn sort_bytes(v: Vec<Vec<u8>>) -> (r: Vec<Vec<u8>>)
    ensures
        lex_sorted(views(r@)),
        views(r@).to_multiset() == views(v@).to_multiset(),
{
    broadcast use vstd::seq_lib::to_multiset_insert;

    let mut out: Vec<Vec<u8>> = Vec::new();
    let mut i: usize = 0;
    assert(views(v@).subrange(0, 0) == Seq::<Seq<u8>>::empty());
    assert(views(out@) == Seq::<Seq<u8>>::empty());
    while i < v.len()
        invariant
            i <= v@.len(),
            lex_sorted(views(out@)),
            views(out@).to_multiset() == views(v@).subrange(0, i as int).to_multiset(),
        decreases v@.len() - i,
    {
        let x = v[i].clone();
        assert(x@ == views(v@)[i as int]);
        let mut p: usize = 0;
        while p < out.len() && bytes_le(&out[p], &x)
            invariant
                p <= out@.len(),
                forall|k: int| 0 <= k < p ==> lex_le(#[trigger] views(out@)[k], x@),
            decreases out@.len() - p,
        {
            p = p + 1;
        }
        let ghost before = views(out@);
        out.insert(p, x.clone());
        proof {
            assert(views(out@) == before.insert(p as int, x@));
            assert forall|a: int, b: int| 0 <= a < b < views(out@).len() implies lex_le(
                #[trigger] views(out@)[a],
                #[trigger] views(out@)[b],
            ) by {
                let s = views(out@);
                if b < p {
                    assert(s[a] == before[a] && s[b] == before[b]);
                } else if b == p {
                    assert(s[a] == before[a]);
                } else if a == p {
                    assert(s[b] == before[b - 1]);
                    assert(!lex_le(before[p as int], x@));
                    lemma_lex_total(before[p as int], x@);
                    if b - 1 > p {
                        lemma_lex_trans(x@, before[p as int], before[b - 1]);
                    }
                } else if a < p {
                    assert(s[a] == before[a] && s[b] == before[b - 1]);
                } else {
                    assert(s[a] == before[a - 1] && s[b] == before[b - 1]);
                }
            }
            assert(views(v@).subrange(0, i + 1) == views(v@).subrange(0, i as int).push(x@));
            vstd::seq_lib::to_multiset_build(views(v@).subrange(0, i as int), x@);
            vstd::seq_lib::to_multiset_insert(before, p as int, x@);
        }
        i = i + 1;
    }
    assert(views(v@).subrange(0, v@.len() as int) == views(v@));
    out
}

/// Parse an unsigned number as `str::parse::<u32>` does.
pub fn parse_u32(s: &[u8]) -> (r: Option<u32>)
    ensures
        r matches Some(v) ==> parse_unsigned(s@, u32::MAX as nat) == Some(v as nat),
        r is None ==> parse_unsigned(s@, u32::MAX as nat) is None,
{
    match parse_usize(s) {
        Some(v) => if v <= 0xffff_ffff {
            Some(v as u32)
        } else {
            None
        },
        None => None,
    }
}

} // verus!

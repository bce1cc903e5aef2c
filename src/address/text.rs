//! Digits, numerals and separated lists of characters.

use vstd::prelude::*;

verus! {

/// `c` is an ASCII decimal digit.
pub open spec fn is_digit(c: char) -> bool {
    '0' <= c && c <= '9'
}

/// `c` is an ASCII hexadecimal digit, in either case.
pub open spec fn is_hex_digit(c: char) -> bool {
    ('0' <= c && c <= '9') || ('a' <= c && c <= 'f') || ('A' <= c && c <= 'F')
}

/// The value of a hexadecimal digit.
pub open spec fn hex_digit_value(c: char) -> nat {
    if '0' <= c && c <= '9' {
        (c as nat - '0' as nat) as nat
    } else if 'a' <= c && c <= 'f' {
        (c as nat - 'a' as nat + 10) as nat
    } else {
        (c as nat - 'A' as nat + 10) as nat
    }
}

/// Every character of `s` is a decimal digit.
pub open spec fn all_digits(s: Seq<char>) -> bool {
    forall|i: int| 0 <= i < s.len() ==> is_digit(#[trigger] s[i])
}

/// Every character of `s` is a hexadecimal digit.
pub open spec fn all_hex_digits(s: Seq<char>) -> bool {
    forall|i: int| 0 <= i < s.len() ==> is_hex_digit(#[trigger] s[i])
}

/// The number that the decimal digits `s` spell, most significant first.
pub open spec fn decimal_value(s: Seq<char>) -> nat
    decreases s.len(),
{
    if s.len() == 0 {
        0
    } else {
        decimal_value(s.drop_last()) * 10 + (s.last() as nat - '0' as nat) as nat
    }
}

/// The number that the hexadecimal digits `s` spell, most significant first.
pub open spec fn hex_value(s: Seq<char>) -> nat
    decreases s.len(),
{
    if s.len() == 0 {
        0
    } else {
        hex_value(s.drop_last()) * 16 + hex_digit_value(s.last())
    }
}

/// The lowercase hexadecimal digit for `d < 16`.
pub open spec fn hex_char(d: nat) -> char {
    if d < 10 {
        (d + '0' as nat) as char
    } else {
        (d - 10 + 'a' as nat) as char
    }
}

/// The decimal digit for `d < 10`.
pub open spec fn decimal_char(d: nat) -> char {
    (d + '0' as nat) as char
}

/// `n` in decimal, without leading zeros.
pub open spec fn decimal_text(n: nat) -> Seq<char>
    decreases n,
{
    if n < 10 {
        seq![decimal_char(n)]
    } else {
        decimal_text(n / 10).push(decimal_char(n % 10))
    }
}

/// `n` in lowercase hexadecimal, without leading zeros.
pub open spec fn hex_text(n: nat) -> Seq<char>
    decreases n,
{
    if n < 16 {
        seq![hex_char(n)]
    } else {
        hex_text(n / 16).push(hex_char(n % 16))
    }
}

/// A byte as exactly two lowercase hexadecimal digits.
pub open spec fn hex_pair(b: u8) -> Seq<char> {
    seq![hex_char(b as nat / 16), hex_char(b as nat % 16)]
}

/// The pieces of `s` between occurrences of `sep`; a text without `sep`
/// is one piece, and the empty text is one empty piece.
pub open spec fn split(s: Seq<char>, sep: char) -> Seq<Seq<char>>
    decreases s.len(),
{
    if s.len() == 0 {
        seq![Seq::empty()]
    } else {
        let r = split(s.drop_last(), sep);
        if s.last() == sep {
            r.push(Seq::empty())
        } else {
            r.update(r.len() - 1, r.last().push(s.last()))
        }
    }
}

/// The pieces `ps` with `sep` between each two.
pub open spec fn join(ps: Seq<Seq<char>>, sep: char) -> Seq<char>
    decreases ps.len(),
{
    if ps.len() == 0 {
        Seq::empty()
    } else if ps.len() == 1 {
        ps[0]
    } else {
        join(ps.drop_last(), sep).push(sep) + ps.last()
    }
}

pub proof fn lemma_split_nonempty(s: Seq<char>, sep: char)
    ensures
        split(s, sep).len() >= 1,
    decreases s.len(),
{
    if s.len() > 0 {
        lemma_split_nonempty(s.drop_last(), sep);
    }
}

/// A text without `sep` is a single piece.
pub proof fn lemma_split_no_sep(s: Seq<char>, sep: char)
    requires
        !s.contains(sep),
    ensures
        split(s, sep) == seq![s],
    decreases s.len(),
{
    if s.len() == 0 {
        assert(s =~= Seq::<char>::empty());
    } else {
        assert(!s.drop_last().contains(sep)) by {
            if s.drop_last().contains(sep) {
                let j = choose|j: int| 0 <= j < s.drop_last().len() && s.drop_last()[j] == sep;
                assert(s[j] == sep);
            }
        }
        lemma_split_no_sep(s.drop_last(), sep);
        assert(s.last() != sep) by {
            assert(s[s.len() - 1] == s.last());
        }
        assert(s.drop_last().push(s.last()) =~= s);
        assert(seq![s.drop_last()].update(0, s.drop_last().push(s.last())) =~= seq![s]);
    }
}

/// Splitting at a separator splits the two sides apart.
pub proof fn lemma_split_at_sep(x: Seq<char>, y: Seq<char>, sep: char)
    ensures
        split(x.push(sep) + y, sep) == split(x, sep) + split(y, sep),
    decreases y.len(),
{
    lemma_split_nonempty(x, sep);
    if y.len() == 0 {
        assert(x.push(sep) + y =~= x.push(sep));
        assert(x.push(sep).drop_last() =~= x);
        assert(split(x, sep).push(Seq::empty()) =~= split(x, sep) + split(y, sep));
    } else {
        let z = x.push(sep) + y;
        assert(z.drop_last() =~= x.push(sep) + y.drop_last());
        assert(z.last() == y.last());
        lemma_split_at_sep(x, y.drop_last(), sep);
        lemma_split_nonempty(y.drop_last(), sep);
        let a = split(x, sep);
        let b = split(y.drop_last(), sep);
        if y.last() == sep {
            assert((a + b).push(Seq::empty()) =~= a + b.push(Seq::empty()));
        } else {
            assert((a + b).update((a + b).len() - 1, (a + b).last().push(y.last())) =~= a + b.update(
                b.len() - 1,
                b.last().push(y.last()),
            ));
        }
    }
}

/// Splitting a joined list gives the list back, when no piece holds the
/// separator.
pub proof fn lemma_split_join(ps: Seq<Seq<char>>, sep: char)
    requires
        ps.len() >= 1,
        forall|i: int| 0 <= i < ps.len() ==> !(#[trigger] ps[i]).contains(sep),
    ensures
        split(join(ps, sep), sep) == ps,
    decreases ps.len(),
{
    if ps.len() == 1 {
        lemma_split_no_sep(ps[0], sep);
        assert(seq![ps[0]] =~= ps);
    } else {
        let init = ps.drop_last();
        assert forall|i: int| 0 <= i < init.len() implies !(#[trigger] init[i]).contains(sep) by {
            assert(init[i] == ps[i]);
        }
        lemma_split_join(init, sep);
        lemma_split_at_sep(join(init, sep), ps.last(), sep);
        lemma_split_no_sep(ps.last(), sep);
        assert(init + seq![ps.last()] =~= ps);
    }
}

/// Characters of a text, in order.
pub fn chars_of(s: &str) -> (r: Vec<char>)
    ensures
        r@ == s@,
{
    let n = s.unicode_len();
    let mut r: Vec<char> = Vec::new();
    let mut i: usize = 0;
    while i < n
        invariant
            n == s@.len(),
            i <= n,
            r@ == s@.subrange(0, i as int),
        decreases n - i,
    {
        let c = s.get_char(i);
        r.push(c);
        i = i + 1;
        assert(r@ =~= s@.subrange(0, i as int));
    }
    assert(r@ =~= s@);
    r
}

/// The pieces of `s[from..to]` between occurrences of `sep`.
pub fn split_chars(s: &Vec<char>, from: usize, to: usize, sep: char) -> (r: Vec<Vec<char>>)
    requires
        from <= to <= s@.len(),
    ensures
        r.deep_view() == split(s@.subrange(from as int, to as int), sep),
{
    let mut pieces: Vec<Vec<char>> = Vec::new();
    let mut cur: Vec<char> = Vec::new();
    let mut i: usize = from;
    assert(s@.subrange(from as int, from as int) =~= Seq::<char>::empty());
    assert(pieces.deep_view().push(cur@) =~= seq![Seq::<char>::empty()]);
    while i < to
        invariant
            from <= i <= to <= s@.len(),
            pieces.deep_view().push(cur@) == split(s@.subrange(from as int, i as int), sep),
        decreases to - i,
    {
        let c = s[i];
        let ghost prev = s@.subrange(from as int, i as int);
        let ghost next = s@.subrange(from as int, i + 1);
        assert(next.drop_last() =~= prev);
        assert(next.last() == c);
        proof {
            lemma_split_nonempty(prev, sep);
        }
        if c == sep {
            let ghost before = pieces.deep_view();
            let ghost done_view = cur@;
            let done = cur;
            pieces.push(done);
            assert(done.deep_view() =~= done_view);
            assert(pieces.deep_view() =~= before.push(done_view));
            cur = Vec::new();
            assert(pieces.deep_view().push(cur@) =~= split(prev, sep).push(Seq::empty()));
        } else {
            let ghost before = pieces.deep_view();
            cur.push(c);
            assert(pieces.deep_view() == before);
            assert(pieces.deep_view().push(cur@) =~= split(prev, sep).update(
                split(prev, sep).len() - 1,
                split(prev, sep).last().push(c),
            ));
        }
        i = i + 1;
    }
    let ghost before = pieces.deep_view();
    let ghost last_view = cur@;
    let last = cur;
    pieces.push(last);
    assert(last.deep_view() =~= last_view);
    assert(pieces.deep_view() =~= before.push(last_view));
    pieces
}

} // verus!

verus! {

/// Appends the lowercase hexadecimal digit `d` to `out`.
pub fn push_hex_digit(out: &mut String, d: u8)
    requires
        d < 16,
    ensures
        final(out)@ == old(out)@.push(hex_char(d as nat)),
{
    let digits = "0123456789abcdef";
    proof {
        reveal_strlit("0123456789abcdef");
    }
    assert(digits.is_ascii());
    let one = digits.substring_ascii(d as usize, d as usize + 1);
    assert(one@ =~= seq![hex_char(d as nat)]);
    out.append(one);
}

} // verus!

verus! {

/// Appends the text `lit` to `out`.
pub fn push_str(out: &mut String, lit: &str)
    ensures
        final(out)@ == old(out)@ + lit@,
{
    out.append(lit);
}

/// Appends `n` in decimal, without leading zeros.
pub fn push_decimal_u8(out: &mut String, n: u8)
    ensures
        final(out)@ == old(out)@ + decimal_text(n as nat),
{
    let digits = "0123456789";
    proof {
        reveal_strlit("0123456789");
        reveal_with_fuel(decimal_text, 3);
    }
    assert(digits.is_ascii());
    let ghost start = out@;
    if n >= 100 {
        let h = (n / 100) as usize;
        let d = digits.substring_ascii(h, h + 1);
        out.append(d);
        assert(d@ =~= seq![decimal_char(n as nat / 100)]);
    }
    if n >= 10 {
        let t = ((n / 10) % 10) as usize;
        let d = digits.substring_ascii(t, t + 1);
        out.append(d);
        assert(d@ =~= seq![decimal_char((n as nat / 10) % 10)]);
    }
    let o = (n % 10) as usize;
    let d = digits.substring_ascii(o, o + 1);
    out.append(d);
    assert(d@ =~= seq![decimal_char(n as nat % 10)]);
    assert(n as nat / 10 / 10 == n as nat / 100);
    assert(out@ =~= start + decimal_text(n as nat));
}

/// Appends `n` in lowercase hexadecimal, without leading zeros.
pub fn push_hex_u16(out: &mut String, n: u16)
    ensures
        final(out)@ == old(out)@ + hex_text(n as nat),
{
    proof {
        reveal_with_fuel(hex_text, 4);
    }
    let ghost start = out@;
    if n >= 0x1000 {
        push_hex_digit(out, (n / 0x1000) as u8);
    }
    if n >= 0x100 {
        push_hex_digit(out, ((n / 0x100) % 16) as u8);
    }
    if n >= 0x10 {
        push_hex_digit(out, ((n / 0x10) % 16) as u8);
    }
    push_hex_digit(out, (n % 16) as u8);
    assert(n as nat / 16 / 16 == n as nat / 0x100);
    assert(n as nat / 16 / 16 / 16 == n as nat / 0x1000);
    assert(out@ =~= start + hex_text(n as nat));
}

/// Appends `b` as two lowercase hexadecimal digits.
pub fn push_hex_pair(out: &mut String, b: u8)
    ensures
        final(out)@ == old(out)@ + hex_pair(b),
{
    let ghost start = out@;
    push_hex_digit(out, b / 16);
    push_hex_digit(out, b % 16);
    assert(out@ =~= start + hex_pair(b));
}

} // verus!

verus! {

/// A decimal numeral is made of digits, spells its number, and starts with
/// `0` only when it is `0`.
pub proof fn lemma_decimal_text(n: nat)
    ensures
        decimal_text(n).len() >= 1,
        all_digits(decimal_text(n)),
        decimal_value(decimal_text(n)) == n,
        n < 10 ==> decimal_text(n).len() == 1,
        n >= 10 ==> decimal_text(n).len() >= 2,
        n < 100 ==> decimal_text(n).len() <= 2,
        n < 1000 ==> decimal_text(n).len() <= 3,
        decimal_text(n).len() > 1 ==> decimal_text(n)[0] != '0',
    decreases n,
{
    if n < 10 {
        assert(decimal_text(n).drop_last() =~= Seq::<char>::empty());
        assert(decimal_value(Seq::<char>::empty()) == 0);
        assert(decimal_char(n) as nat == n + '0' as nat);
    } else {
        lemma_decimal_text(n / 10);
        assert((n / 10) * 10 + n % 10 == n);
        let t = decimal_text(n);
        assert(t.last() == decimal_char(n % 10));
        assert(decimal_char(n % 10) as nat == n % 10 + '0' as nat);
        assert(t.drop_last() =~= decimal_text(n / 10));
        assert(t[0] == decimal_text(n / 10)[0]);
        if decimal_text(n / 10).len() == 1 {
            assert(n / 10 >= 1);
            assert(decimal_text(n / 10)[0] != '0') by {
                assert(decimal_text(n / 10) =~= seq![decimal_char(n / 10)]);
            }
        }
        assert forall|i: int| 0 <= i < t.len() implies is_digit(#[trigger] t[i]) by {
            if i < t.len() - 1 {
                assert(t[i] == decimal_text(n / 10)[i]);
            }
        }
    }
}

/// A digit reads back as its value.
pub proof fn lemma_hex_char(d: nat)
    requires
        d < 16,
    ensures
        is_hex_digit(hex_char(d)),
        hex_digit_value(hex_char(d)) == d,
        !is_digit(hex_char(d)) ==> ('a' <= hex_char(d) && hex_char(d) <= 'f'),
{
    if d < 10 {
        assert(hex_char(d) as nat == d + '0' as nat);
    } else {
        assert(hex_char(d) as nat == d - 10 + 'a' as nat);
    }
}

/// A hexadecimal numeral is made of hexadecimal digits and spells its number.
pub proof fn lemma_hex_text(n: nat)
    ensures
        hex_text(n).len() >= 1,
        all_hex_digits(hex_text(n)),
        hex_value(hex_text(n)) == n,
        n < 16 ==> hex_text(n).len() == 1,
        n >= 16 ==> hex_text(n).len() >= 2,
        n < 0x100 ==> hex_text(n).len() <= 2,
        n < 0x1000 ==> hex_text(n).len() <= 3,
        n < 0x10000 ==> hex_text(n).len() <= 4,
    decreases n,
{
    lemma_hex_char(n % 16);
    if n < 16 {
        assert(hex_text(n).drop_last() =~= Seq::<char>::empty());
        assert(hex_value(Seq::<char>::empty()) == 0);
        assert(n % 16 == n);
    } else {
        lemma_hex_text(n / 16);
        assert((n / 16) * 16 + n % 16 == n);
        let t = hex_text(n);
        assert(t.last() == hex_char(n % 16));
        lemma_hex_char(n % 16);
        assert(t.drop_last() =~= hex_text(n / 16));
        assert forall|i: int| 0 <= i < t.len() implies is_hex_digit(#[trigger] t[i]) by {
            if i < t.len() - 1 {
                assert(t[i] == hex_text(n / 16)[i]);
            }
        }
    }
}

/// Digits hold no separator.
pub proof fn lemma_digits_no_sep(s: Seq<char>, sep: char)
    requires
        all_hex_digits(s),
        !is_hex_digit(sep),
    ensures
        !s.contains(sep),
{
}

/// Decimal digits are hexadecimal digits.
pub proof fn lemma_digits_are_hex(s: Seq<char>)
    requires
        all_digits(s),
    ensures
        all_hex_digits(s),
{
    assert forall|i: int| 0 <= i < s.len() implies is_hex_digit(#[trigger] s[i]) by {
        assert(is_digit(s[i]));
    }
}

} // verus!

verus! {

/// Joining pieces that are nonempty and free of the separator never puts
/// two separators side by side, nor one at either end.
pub proof fn lemma_join_no_double_sep(ps: Seq<Seq<char>>, sep: char)
    requires
        forall|i: int| 0 <= i < ps.len() ==> (#[trigger] ps[i]).len() >= 1 && !ps[i].contains(sep),
    ensures
        forall|j: int|
            0 <= j && j + 1 < join(ps, sep).len() ==> !(#[trigger] join(ps, sep)[j] == sep && join(
                ps,
                sep,
            )[j + 1] == sep),
        ps.len() >= 1 ==> join(ps, sep).len() >= 1 && join(ps, sep)[0] != sep && join(ps, sep).last()
            != sep,
    decreases ps.len(),
{
    if ps.len() == 1 {
        let p = ps[0];
        assert forall|j: int| 0 <= j < p.len() implies p[j] != sep by {
            if p[j] == sep {
                assert(p.contains(sep));
            }
        }
    } else if ps.len() > 1 {
        let init = ps.drop_last();
        assert forall|i: int| 0 <= i < init.len() implies (#[trigger] init[i]).len() >= 1
            && !init[i].contains(sep) by {
            assert(init[i] == ps[i]);
        }
        lemma_join_no_double_sep(init, sep);
        let j0 = join(init, sep);
        let p = ps.last();
        assert(p == ps[ps.len() - 1]);
        let whole = j0.push(sep) + p;
        assert(whole == join(ps, sep));
        assert forall|j: int| 0 <= j < p.len() implies p[j] != sep by {
            if p[j] == sep {
                assert(p.contains(sep));
            }
        }
        assert forall|j: int| 0 <= j && j + 1 < whole.len() implies !(#[trigger] whole[j] == sep
            && whole[j + 1] == sep) by {
            if j + 1 < j0.len() {
                assert(whole[j] == j0[j] && whole[j + 1] == j0[j + 1]);
            } else if j + 1 == j0.len() {
                assert(whole[j] == j0.last());
            } else if j == j0.len() {
                assert(whole[j + 1] == p[0]);
            } else {
                assert(whole[j] == p[j - j0.len() - 1]);
            }
        }
        assert(whole[0] == j0[0]);
        assert(whole.last() == p[p.len() - 1]);
    }
}

} // verus!

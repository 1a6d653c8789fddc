//! Decimal notation for integers, and texts joined by a separator.

use vstd::prelude::*;
use vstd::string::StringExecFns;

verus! {

/// The character that writes the single digit `d`.
pub open spec fn digit_char(d: nat) -> char
    recommends
        d < 10,
{
    if d == 0 {
        '0'
    } else if d == 1 {
        '1'
    } else if d == 2 {
        '2'
    } else if d == 3 {
        '3'
    } else if d == 4 {
        '4'
    } else if d == 5 {
        '5'
    } else if d == 6 {
        '6'
    } else if d == 7 {
        '7'
    } else if d == 8 {
        '8'
    } else {
        '9'
    }
}

/// Whether `c` is one of the ten decimal digits.
pub open spec fn is_digit(c: char) -> bool {
    '0' <= c <= '9'
}

/// The value of the digit `c`.
pub open spec fn digit_value(c: char) -> nat
    recommends
        is_digit(c),
{
    (c as u32 - '0' as u32) as nat
}

/// `n` in decimal notation: most significant digit first, no leading zero,
/// and `"0"` for zero.
pub open spec fn nat_text(n: nat) -> Seq<char>
    decreases n,
{
    if n < 10 {
        seq![digit_char(n)]
    } else {
        nat_text(n / 10).push(digit_char(n % 10))
    }
}

/// `i` in decimal notation, with a leading `-` when `i` is negative.
pub open spec fn int_text(i: int) -> Seq<char> {
    if i < 0 {
        seq!['-'] + nat_text((-i) as nat)
    } else {
        nat_text(i as nat)
    }
}

/// Decimal notation is made of digits only, begins with a digit other than
/// zero unless the number is zero, and ends with the digit of its units.
pub proof fn nat_text_is_digits(n: nat)
    ensures
        nat_text(n).len() >= 1,
        forall|i: int| 0 <= i < nat_text(n).len() ==> is_digit(#[trigger] nat_text(n)[i]),
        n > 0 ==> nat_text(n)[0] != '0',
        n == 0 ==> nat_text(n) == seq!['0'],
        nat_text(n).last() == digit_char(n % 10),
    decreases n,
{
    if n >= 10 {
        nat_text_is_digits(n / 10);
    }
}

/// A text that begins with `prefix` has the characters of `prefix` at its
/// start.
pub proof fn prefix_fixes_start(prefix: Seq<char>, text: Seq<char>)
    requires
        prefix.is_prefix_of(text),
    ensures
        prefix.len() <= text.len(),
        forall|i: int| 0 <= i < prefix.len() ==> text[i] == prefix[i],
{
    assert forall|i: int| 0 <= i < prefix.len() implies text[i] == prefix[i] by {
        assert(text.subrange(0, prefix.len() as int)[i] == text[i]);
    }
}

/// The one-character string that writes the digit `d`.
pub fn digit_str(d: u8) -> (s: &'static str)
    requires
        d < 10,
    ensures
        s@ == seq![digit_char(d as nat)],
{
    proof {
        reveal_strlit("0");
        reveal_strlit("1");
        reveal_strlit("2");
        reveal_strlit("3");
        reveal_strlit("4");
        reveal_strlit("5");
        reveal_strlit("6");
        reveal_strlit("7");
        reveal_strlit("8");
        reveal_strlit("9");
    }
    let s: &'static str = match d {
        0 => "0",
        1 => "1",
        2 => "2",
        3 => "3",
        4 => "4",
        5 => "5",
        6 => "6",
        7 => "7",
        8 => "8",
        _ => "9",
    };
    assert(s@ =~= seq![digit_char(d as nat)]);
    s
}

/// Appends `n` in decimal notation to `buf`.
pub fn push_nat(buf: &mut String, n: u64)
    ensures
        final(buf)@ == old(buf)@ + nat_text(n as nat),
    decreases n,
{
    if n >= 10 {
        push_nat(buf, n / 10);
    }
    buf.append(digit_str((n % 10) as u8));
    assert(buf@ =~= old(buf)@ + nat_text(n as nat));
}

/// `n` in decimal notation.
pub fn nat_string(n: u64) -> (out: String)
    ensures
        out@ == nat_text(n as nat),
{
    let mut out = String::new();
    push_nat(&mut out, n);
    assert(out@ =~= nat_text(n as nat));
    out
}

/// Appends `i` in decimal notation to `buf`.
pub fn push_int(buf: &mut String, i: i64)
    ensures
        final(buf)@ == old(buf)@ + int_text(i as int),
{
    if i < 0 {
        proof {
            reveal_strlit("-");
        }
        buf.append("-");
        let magnitude: u64 = (-(i + 1)) as u64 + 1;
        push_nat(buf, magnitude);
        assert(buf@ =~= old(buf)@ + int_text(i as int));
    } else {
        push_nat(buf, i as u64);
    }
}

/// What each string of `parts` holds.
pub open spec fn views(parts: Seq<String>) -> Seq<Seq<char>> {
    Seq::new(parts.len(), |i: int| parts[i]@)
}

/// All of `parts` in order, each with `sep` in front of it.
pub open spec fn each_prefixed(parts: Seq<Seq<char>>, sep: Seq<char>) -> Seq<char>
    decreases parts.len(),
{
    if parts.len() == 0 {
        Seq::empty()
    } else {
        each_prefixed(parts.drop_last(), sep) + sep + parts.last()
    }
}

/// All of `parts` in order, with `sep` between neighbours: nothing in front
/// of the first part and nothing behind the last.
pub open spec fn join(parts: Seq<Seq<char>>, sep: Seq<char>) -> Seq<char> {
    if parts.len() == 0 {
        Seq::empty()
    } else {
        parts.first() + each_prefixed(parts.skip(1), sep)
    }
}

/// A part added at the end comes out last, behind one more `sep`.
pub proof fn each_prefixed_push(parts: Seq<Seq<char>>, part: Seq<char>, sep: Seq<char>)
    ensures
        each_prefixed(parts.push(part), sep) == each_prefixed(parts, sep) + sep + part,
{
    assert(parts.push(part).drop_last() =~= parts);
}

/// Prefixing goes through a list part by part.
pub proof fn each_prefixed_concat(front: Seq<Seq<char>>, back: Seq<Seq<char>>, sep: Seq<char>)
    ensures
        each_prefixed(front + back, sep) == each_prefixed(front, sep) + each_prefixed(back, sep),
    decreases back.len(),
{
    if back.len() == 0 {
        assert(front + back =~= front);
        assert(each_prefixed(front, sep) + each_prefixed(back, sep) =~= each_prefixed(
            front,
            sep,
        ));
    } else {
        assert((front + back).drop_last() =~= front + back.drop_last());
        each_prefixed_concat(front, back.drop_last(), sep);
        assert(each_prefixed(front + back, sep) =~= each_prefixed(front, sep) + each_prefixed(
            back,
            sep,
        ));
    }
}

/// Parts added behind a list that is not empty are each joined on with a
/// `sep` in front.
pub proof fn join_concat(front: Seq<Seq<char>>, back: Seq<Seq<char>>, sep: Seq<char>)
    requires
        front.len() > 0,
    ensures
        join(front + back, sep) == join(front, sep) + each_prefixed(back, sep),
{
    assert((front + back).skip(1) =~= front.skip(1) + back);
    each_prefixed_concat(front.skip(1), back, sep);
    assert(join(front + back, sep) =~= join(front, sep) + each_prefixed(back, sep));
}

/// A list of one part is joined to that part.
pub proof fn join_single(part: Seq<char>, sep: Seq<char>)
    ensures
        join(seq![part], sep) == part,
{
    assert(seq![part].skip(1) =~= Seq::<Seq<char>>::empty());
    assert(part + Seq::<char>::empty() =~= part);
}

/// A part added at the end of a list that is not empty is joined on behind
/// one more `sep`.
pub proof fn join_push(parts: Seq<Seq<char>>, part: Seq<char>, sep: Seq<char>)
    requires
        parts.len() > 0,
    ensures
        join(parts.push(part), sep) == join(parts, sep) + sep + part,
{
    assert(parts.push(part).skip(1) =~= parts.skip(1).push(part));
    each_prefixed_push(parts.skip(1), part, sep);
    assert(join(parts.push(part), sep) =~= join(parts, sep) + sep + part);
}

/// Where a separator and a label stand between two texts, it does not
/// matter whether the two are read apart or as one piece.
pub proof fn label_joins_separator(
    front: Seq<char>,
    sep: Seq<char>,
    label: Seq<char>,
    back: Seq<char>,
)
    ensures
        front + sep + (label + back) == front + (sep + label) + back,
{
    assert(front + sep + (label + back) =~= front + (sep + label) + back);
}

/// Joins `parts` with `sep` between neighbours.
pub fn join_strings(parts: &Vec<String>, sep: &str) -> (out: String)
    ensures
        out@ == join(views(parts@), sep@),
{
    let mut out = String::new();
    let mut done: usize = 0;
    while done < parts.len()
        invariant
            done <= parts.len(),
            out@ == join(views(parts@).take(done as int), sep@),
        decreases parts.len() - done,
    {
        let ghost before = views(parts@).take(done as int);
        let ghost after = views(parts@).take(done + 1);
        if done > 0 {
            out.append(sep);
        }
        out.append(parts[done].as_str());
        proof {
            assert(after.last() == parts[done as int]@);
            if done > 0 {
                assert(after.skip(1).drop_last() =~= before.skip(1));
                assert(after.first() == before.first());
            } else {
                assert(after.skip(1) =~= Seq::<Seq<char>>::empty());
            }
            assert(out@ =~= join(after, sep@));
        }
        done = done + 1;
    }
    assert(views(parts@).take(done as int) =~= views(parts@));
    out
}

} // verus!

//! The text under which a cell is filed in a result: `(x, y)`, both numbers in
//! decimal, with a comma and one space between them.

use vstd::prelude::*;
use crate::line::Coordinate;

verus! {

/// The character of one decimal digit.
pub open spec fn digit_char(d: int) -> char {
    if d == 0 {
        '0'
    } else if d == 1 {
        '1'
    } else if d == 2 {
        '2'
    } else if d == 3 {
        '3'
    } else if d == 4 {
        '4'
    } else if d == 5 {
        '5'
    } else if d == 6 {
        '6'
    } else if d == 7 {
        '7'
    } else if d == 8 {
        '8'
    } else {
        '9'
    }
}

/// The decimal digits of `n`, the most significant first, without leading zeros.
pub open spec fn decimal_digits(n: nat) -> Seq<char>
    decreases n,
{
    if n < 10 {
        seq![digit_char(n as int)]
    } else {
        decimal_digits(n / 10).push(digit_char((n % 10) as int))
    }
}

/// The decimal text of `v`: its digits, after a minus sign where it is negative.
pub open spec fn decimal(v: int) -> Seq<char> {
    if v < 0 {
        seq!['-'] + decimal_digits((-v) as nat)
    } else {
        decimal_digits(v as nat)
    }
}

/// The text under which the cell `c` is filed.
pub open spec fn key_text(c: Coordinate) -> Seq<char> {
    seq!['('] + decimal(c.0 as int) + seq![',', ' '] + decimal(c.1 as int) + seq![')']
}

/// The digit that a character writes; nine for a character that is no digit.
pub open spec fn digit_of(c: char) -> nat {
    if c == '0' {
        0
    } else if c == '1' {
        1
    } else if c == '2' {
        2
    } else if c == '3' {
        3
    } else if c == '4' {
        4
    } else if c == '5' {
        5
    } else if c == '6' {
        6
    } else if c == '7' {
        7
    } else if c == '8' {
        8
    } else {
        9
    }
}

/// The number that a sequence of digit characters writes.
pub open spec fn digits_value(s: Seq<char>) -> nat
    decreases s.len(),
{
    if s.len() == 0 {
        0
    } else {
        digits_value(s.drop_last()) * 10 + digit_of(s.last())
    }
}

/// The digits of a number are at least one, none of them a sign or a
/// separator, and they write that number.
pub proof fn lemma_decimal_digits(n: nat)
    ensures
        decimal_digits(n).len() >= 1,
        forall|i: int|
            0 <= i < decimal_digits(n).len() ==> {
                let ch = #[trigger] decimal_digits(n)[i];
                ch != '-' && ch != ',' && ch != ' ' && ch != '(' && ch != ')'
            },
        digits_value(decimal_digits(n)) == n,
    decreases n,
{
    if n < 10 {
        let s = decimal_digits(n);
        assert(s.drop_last() =~= Seq::<char>::empty());
        assert(digits_value(s.drop_last()) == 0);
    } else {
        lemma_decimal_digits(n / 10);
        let s = decimal_digits(n);
        assert(s.drop_last() =~= decimal_digits(n / 10));
        assert(s.last() == digit_char((n % 10) as int));
    }
}

/// Different numbers have different decimal texts, and no text holds a
/// comma, a space or a bracket.
pub proof fn lemma_decimal_injective(v: int, w: int)
    ensures
        decimal(v).len() >= 1,
        forall|i: int|
            0 <= i < decimal(v).len() ==> {
                let ch = #[trigger] decimal(v)[i];
                ch != ',' && ch != ' ' && ch != '(' && ch != ')'
            },
        decimal(v) == decimal(w) ==> v == w,
{
    let dv = decimal_digits((if v < 0 { -v } else { v }) as nat);
    let dw = decimal_digits((if w < 0 { -w } else { w }) as nat);
    lemma_decimal_digits((if v < 0 { -v } else { v }) as nat);
    lemma_decimal_digits((if w < 0 { -w } else { w }) as nat);
    if decimal(v) == decimal(w) {
        if v < 0 {
            assert(decimal(v)[0] == '-');
            if w >= 0 {
                assert(decimal(w)[0] == dw[0]);
                assert(false);
            }
            assert(dv =~= decimal(v).subrange(1, decimal(v).len() as int));
            assert(dw =~= decimal(w).subrange(1, decimal(w).len() as int));
        } else {
            if w < 0 {
                assert(decimal(w)[0] == '-');
                assert(decimal(v)[0] == dv[0]);
                assert(false);
            }
        }
    }
}

/// Different cells are filed under different texts, and every such text
/// starts with an opening bracket.
pub proof fn lemma_key_text_injective(c: Coordinate, d: Coordinate)
    ensures
        key_text(c).len() >= 6,
        key_text(c)[0] == '(',
        key_text(c) == key_text(d) ==> c == d,
{
    let cx = decimal(c.0 as int);
    let cy = decimal(c.1 as int);
    let dx = decimal(d.0 as int);
    let dy = decimal(d.1 as int);
    lemma_decimal_injective(c.0 as int, d.0 as int);
    lemma_decimal_injective(c.1 as int, d.1 as int);
    lemma_decimal_injective(d.0 as int, c.0 as int);
    lemma_decimal_injective(d.1 as int, c.1 as int);
    let kc = key_text(c);
    let kd = key_text(d);
    assert(kc.len() == cx.len() + cy.len() + 4);
    assert(kd.len() == dx.len() + dy.len() + 4);
    assert forall|i: int| 0 <= i < cx.len() implies kc[1 + i] == cx[i] by {}
    assert forall|i: int| 0 <= i < dx.len() implies kd[1 + i] == dx[i] by {}
    assert(kc[1 + cx.len() as int] == ',');
    assert(kd[1 + dx.len() as int] == ',');
    assert forall|i: int| 0 <= i < cy.len() implies kc[3 + cx.len() + i] == cy[i] by {}
    assert forall|i: int| 0 <= i < dy.len() implies kd[3 + dx.len() + i] == dy[i] by {}
    if kc == kd {
        if cx.len() < dx.len() {
            assert(kd[1 + cx.len() as int] == dx[cx.len() as int]);
            assert(false);
        }
        if dx.len() < cx.len() {
            assert(kc[1 + dx.len() as int] == cx[dx.len() as int]);
            assert(false);
        }
        assert(cx =~= dx);
        assert(cy.len() == dy.len());
        assert(cy =~= dy);
    }
}

/// The text of one decimal digit.
fn digit_text(d: u32) -> (text: &'static str)
    requires
        d < 10,
    ensures
        text@ == seq![digit_char(d as int)],
{
    proof {
        reveal_strlit("0");
        reveal_strlit("1");
        reveal_strlit("2");
        reveal_strlit("3");
        reveal_strlit("4");
        reveal_strlit("5");
        reveal_strlit("6");
        reveal_strlit("7");
        reveal_strlit("8");
        reveal_strlit("9");
    }
    let text = if d == 0 {
        "0"
    } else if d == 1 {
        "1"
    } else if d == 2 {
        "2"
    } else if d == 3 {
        "3"
    } else if d == 4 {
        "4"
    } else if d == 5 {
        "5"
    } else if d == 6 {
        "6"
    } else if d == 7 {
        "7"
    } else if d == 8 {
        "8"
    } else {
        "9"
    };
    assert(text@ =~= seq![digit_char(d as int)]);
    text
}

/// Appends the decimal digits of `n` to `out`.
fn push_digits(out: &mut String, n: u32)
    ensures
        final(out)@ == old(out)@ + decimal_digits(n as nat),
    decreases n,
{
    if n >= 10 {
        push_digits(out, n / 10);
    }
    out.append(digit_text(n % 10));
    assert(final(out)@ =~= old(out)@ + decimal_digits(n as nat));
}

/// Appends the decimal text of `v` to `out`.
fn push_decimal(out: &mut String, v: i32)
    ensures
        final(out)@ == old(out)@ + decimal(v as int),
{
    if v < 0 {
        proof {
            reveal_strlit("-");
        }
        out.append("-");
        let magnitude: u32 = (-(v as i64)) as u32;
        push_digits(out, magnitude);
        assert(final(out)@ =~= old(out)@ + decimal(v as int));
    } else {
        push_digits(out, v as u32);
    }
}

/// The text under which the cell `c` is filed: `(x, y)`.
pub fn coordinate_key(c: Coordinate) -> (key: String)
    ensures
        key@ == key_text(c),
{
    proof {
        reveal_strlit("(");
        reveal_strlit(", ");
        reveal_strlit(")");
    }
    let mut key = String::from_str("(");
    push_decimal(&mut key, c.0);
    key.append(", ");
    push_decimal(&mut key, c.1);
    key.append(")");
    assert(key@ =~= key_text(c));
    key
}

} // verus!

use vstd::prelude::*;

verus! {

/// A stable account identifier: the subject of all authorization decisions.
///
/// The storage layer assigns each account an opaque 128-bit identifier; the
/// library treats it as a plain number.
#[derive(Clone, Copy, Debug, PartialEq, Eq, Hash, Structural)]
pub struct UserId(pub u128);

/// The identifier of one enterprise (organization).
#[derive(Clone, Copy, Debug, PartialEq, Eq, Hash, Structural)]
pub struct EnterpriseId(pub u128);

/// The identifier of one pending enterprise invitation.
#[derive(Clone, Copy, Debug, PartialEq, Eq, Hash, Structural)]
pub struct InviteId(pub u128);

/// The decimal digit character for `d` (`0 <= d < 10`).
pub open spec fn spec_dec_digit(d: int) -> char {
    if d == 0 {
        '0'
    } else if d == 1 {
        '1'
    } else if d == 2 {
        '2'
    } else if d == 3 {
        '3'
    } else if d == 4 {
        '4'
    } else if d == 5 {
        '5'
    } else if d == 6 {
        '6'
    } else if d == 7 {
        '7'
    } else if d == 8 {
        '8'
    } else {
        '9'
    }
}

/// The decimal rendering of `n`, most significant digit first, no leading
/// zeros (except for `n == 0` itself).
pub open spec fn spec_dec(n: int) -> Seq<char>
    decreases n,
{
    if n <= 9 {
        seq![spec_dec_digit(if n < 0 { 0 } else { n })]
    } else {
        spec_dec(n / 10).push(spec_dec_digit(n % 10))
    }
}

fn dec_digit_str(d: u128) -> (s: &'static str)
    requires
        d < 10,
    ensures
        s@ =~= seq![spec_dec_digit(d as int)],
{
    proof {
        reveal_strlit("0");
        reveal_strlit("1");
        reveal_strlit("2");
        reveal_strlit("3");
        reveal_strlit("4");
        reveal_strlit("5");
        reveal_strlit("6");
        reveal_strlit("7");
        reveal_strlit("8");
        reveal_strlit("9");
    }
    match d {
        0 => "0",
        1 => "1",
        2 => "2",
        3 => "3",
        4 => "4",
        5 => "5",
        6 => "6",
        7 => "7",
        8 => "8",
        _ => "9",
    }
}

/// Render `n` in decimal, for human-readable messages only.
pub fn u128_to_dec(n: u128) -> (s: String)
    ensures
        s@ == spec_dec(n as int),
    decreases n,
{
    if n <= 9 {
        String::from_str(dec_digit_str(n))
    } else {
        assert(n / 10 < n) by (nonlinear_arith)
            requires
                n >= 10,
        ;
        let mut s = u128_to_dec(n / 10);
        let d = n % 10;
        s.append(dec_digit_str(d));
        proof {
            assert(s@ =~= spec_dec((n / 10) as int).push(spec_dec_digit((n % 10) as int)));
        }
        s
    }
}

} // verus!

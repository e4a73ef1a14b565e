use vstd::prelude::*;
use vstd::string::StringExecFns;

use crate::error::Error;

verus! {

/// Checks that a link-layer address has exactly five bytes and fixes
/// it into the array form the radio driver takes. An address of any
/// other length is refused with `InvalidAddressLength`; it is never
/// truncated or padded.
pub fn esb_check_address(address: &[u8]) -> (r: Result<[u8; 5], Error>)
    ensures
        address@.len() == 5 ==> (r matches Ok(a) && a@ == address@),
        address@.len() != 5 ==> r == Err::<[u8; 5], Error>(Error::InvalidAddressLength),
{
    if address.len() == 5 {
        let a: [u8; 5] = [address[0], address[1], address[2], address[3], address[4]];
        proof {
            assert(a@ =~= address@);
        }
        Ok(a)
    } else {
        Err(Error::InvalidAddressLength)
    }
}

/// Decides a radio-mode change: the requested mode must be one of the
/// supported modes the driver reports, else the change is refused with
/// `UnknownMode` before anything reaches the driver.
pub fn radio_mode_check(mode: &String, supported: &Vec<String>) -> (r: Result<(), Error>)
    ensures
        r is Ok <==> (exists|i: int|
            0 <= i < supported@.len() && #[trigger] supported@[i]@ == mode@),
        r is Err ==> r == Err::<(), Error>(Error::UnknownMode),
{
    let mut i: usize = 0;
    while i < supported.len()
        invariant
            i <= supported@.len(),
            forall|k: int| 0 <= k < i ==> #[trigger] supported@[k]@ != mode@,
        decreases supported@.len() - i,
    {
        if supported[i] == *mode {
            return Ok(());
        }
        i = i + 1;
    }
    Err(Error::UnknownMode)
}

/// The character of a single decimal digit.
pub open spec fn digit_char(d: nat) -> char {
    if d == 0 {
        '0'
    } else if d == 1 {
        '1'
    } else if d == 2 {
        '2'
    } else if d == 3 {
        '3'
    } else if d == 4 {
        '4'
    } else if d == 5 {
        '5'
    } else if d == 6 {
        '6'
    } else if d == 7 {
        '7'
    } else if d == 8 {
        '8'
    } else {
        '9'
    }
}

/// The decimal digits of a number, most significant first.
pub open spec fn spec_decimal(n: nat) -> Seq<char>
    decreases n,
{
    if n < 10 {
        seq![digit_char(n)]
    } else {
        spec_decimal(n / 10).push(digit_char(n % 10))
    }
}

/// A one-character string for a decimal digit.
fn digit_str(d: u64) -> (r: &'static str)
    requires
        d < 10,
    ensures
        r@ == seq![digit_char(d as nat)],
{
    proof {
        reveal_strlit("0");
        reveal_strlit("1");
        reveal_strlit("2");
        reveal_strlit("3");
        reveal_strlit("4");
        reveal_strlit("5");
        reveal_strlit("6");
        reveal_strlit("7");
        reveal_strlit("8");
        reveal_strlit("9");
    }
    match d {
        0 => "0",
        1 => "1",
        2 => "2",
        3 => "3",
        4 => "4",
        5 => "5",
        6 => "6",
        7 => "7",
        8 => "8",
        _ => "9",
    }
}

/// Renders a number in decimal.
fn decimal_string(n: usize) -> (r: String)
    ensures
        r@ == spec_decimal(n as nat),
    decreases n,
{
    if n < 10 {
        let mut s = String::new();
        s.append(digit_str(n as u64));
        proof {
            assert(s@ =~= spec_decimal(n as nat));
        }
        s
    } else {
        let mut s = decimal_string(n / 10);
        s.append(digit_str((n % 10) as u64));
        proof {
            assert(s@ =~= spec_decimal(n as nat));
        }
        s
    }
}

/// Formats the sum of two numbers as its decimal text.
pub fn sum_as_string(a: usize, b: usize) -> (r: String)
    requires
        a + b <= usize::MAX,
    ensures
        r@ == spec_decimal((a + b) as nat),
{
    decimal_string(a + b)
}

} // verus!

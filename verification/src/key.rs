//! The text form of a placement's position: `"dx,dy,dz"`, each coordinate in
//! decimal, with a leading `-` where it is negative and nothing else around it.

use crate::convert::Placement;
use vstd::prelude::*;
use vstd::string::StringExecFns;

verus! {

/// The character for the digit `d`.
pub open spec fn digit(d: int) -> char {
    seq!['0', '1', '2', '3', '4', '5', '6', '7', '8', '9'][d]
}

/// The decimal digits of `n`, most significant first, without leading zeros.
pub open spec fn digits(n: nat) -> Seq<char>
    decreases n,
{
    if n < 10 {
        seq![digit(n as int)]
    } else {
        digits(n / 10).push(digit((n % 10) as int))
    }
}

/// The decimal form of `v`.
pub open spec fn decimal(v: int) -> Seq<char> {
    if v < 0 {
        seq!['-'] + digits((-v) as nat)
    } else {
        digits(v as nat)
    }
}

/// The text form of the position `(dx, dy, dz)`.
pub open spec fn key_text(dx: int, dy: int, dz: int) -> Seq<char> {
    decimal(dx) + seq![','] + decimal(dy) + seq![','] + decimal(dz)
}

/// The characters for a list of digits that holds the least significant first.
spec fn reversed(ds: Seq<u8>) -> Seq<char> {
    Seq::new(ds.len(), |j: int| digit(ds[ds.len() - 1 - j] as int))
}

fn digit_str(d: u8) -> (s: &'static str)
    requires
        d < 10,
    ensures
        s@ == seq![digit(d as int)],
{
    proof {
        reveal_strlit("0");
        reveal_strlit("1");
        reveal_strlit("2");
        reveal_strlit("3");
        reveal_strlit("4");
        reveal_strlit("5");
        reveal_strlit("6");
        reveal_strlit("7");
        reveal_strlit("8");
        reveal_strlit("9");
    }
    let s = if d == 0 {
        "0"
    } else if d == 1 {
        "1"
    } else if d == 2 {
        "2"
    } else if d == 3 {
        "3"
    } else if d == 4 {
        "4"
    } else if d == 5 {
        "5"
    } else if d == 6 {
        "6"
    } else if d == 7 {
        "7"
    } else if d == 8 {
        "8"
    } else {
        "9"
    };
    assert(s@ =~= seq![digit(d as int)]);
    s
}

/// Appends the decimal form of `v` to `out`.
fn push_decimal(out: &mut String, v: i64)
    ensures
        final(out)@ == old(out)@ + decimal(v as int),
{
    let ghost base = out@;
    let magnitude: u64 = if v < 0 {
        proof {
            reveal_strlit("-");
        }
        out.append("-");
        (-(v + 1)) as u64 + 1
    } else {
        v as u64
    };
    let ghost signed = out@;
    assert(signed + digits(magnitude as nat) =~= base + decimal(v as int));
    let mut ds: Vec<u8> = Vec::new();
    ds.push((magnitude % 10) as u8);
    let mut rest: u64 = magnitude / 10;
    assert(reversed(ds@) =~= seq![digit((magnitude % 10) as int)]);
    while rest > 0
        invariant
            forall|j: int| 0 <= j < ds@.len() ==> #[trigger] ds@[j] < 10,
            ds@.len() > 0,
            digits(magnitude as nat) == (if rest > 0 {
                digits(rest as nat)
            } else {
                Seq::<char>::empty()
            }) + reversed(ds@),
        decreases rest,
    {
        let ghost before = ds@;
        let d: u8 = (rest % 10) as u8;
        ds.push(d);
        proof {
            assert(reversed(ds@) =~= seq![digit(d as int)] + reversed(before));
            if rest >= 10 {
                assert(digits(rest as nat) == digits((rest / 10) as nat).push(digit(d as int)));
                assert(digits((rest / 10) as nat).push(digit(d as int)) + reversed(before)
                    =~= digits((rest / 10) as nat) + reversed(ds@));
            } else {
                assert(digits(rest as nat) + reversed(before) =~= Seq::<char>::empty() + reversed(
                    ds@,
                ));
            }
        }
        rest = rest / 10;
    }
    assert(digits(magnitude as nat) =~= reversed(ds@));
    let n: usize = ds.len();
    let mut k: usize = 0;
    while k < n
        invariant
            k <= n,
            n == ds@.len(),
            forall|j: int| 0 <= j < ds@.len() ==> #[trigger] ds@[j] < 10,
            out@ == signed + reversed(ds@).take(k as int),
        decreases n - k,
    {
        let ghost before = out@;
        out.append(digit_str(ds[n - 1 - k]));
        proof {
            assert(reversed(ds@).take(k + 1) =~= reversed(ds@).take(k as int).push(
                digit(ds@[n - 1 - k] as int),
            ));
            assert(out@ =~= signed + reversed(ds@).take(k + 1));
        }
        k = k + 1;
    }
    assert(reversed(ds@).take(n as int) =~= reversed(ds@));
}

impl Placement {
    /// The text form of the placement's position.
    pub fn key(&self) -> (s: String)
        ensures
            s@ == key_text(self.dx as int, self.dy as int, self.dz as int),
    {
        proof {
            reveal_strlit(",");
        }
        let mut s = String::new();
        push_decimal(&mut s, self.dx);
        s.append(",");
        push_decimal(&mut s, self.dy);
        s.append(",");
        push_decimal(&mut s, self.dz);
        assert(s@ =~= key_text(self.dx as int, self.dy as int, self.dz as int));
        s
    }
}

} // verus!

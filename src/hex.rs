//! Shortened hexadecimal forms of byte strings, for debug output.
use vstd::prelude::*;
use vstd::string::StringExecFns;

verus! {

/// The lower-case hexadecimal digits.
pub open spec fn hex_digits() -> Seq<char> {
    seq!['0', '1', '2', '3', '4', '5', '6', '7', '8', '9', 'a', 'b', 'c', 'd', 'e', 'f']
}

/// Two hexadecimal digits for each byte, high nibble first.
pub open spec fn hex_seq(s: Seq<u8>) -> Seq<char>
    decreases s.len(),
{
    if s.len() == 0 {
        Seq::empty()
    } else {
        let b = s.last();
        hex_seq(s.drop_last()) + seq![hex_digits()[(b >> 4u8) as int], hex_digits()[(b & 15u8) as int]]
    }
}

/// The whole hex form of at most six bytes; of a longer string, the first
/// three bytes, `..`, and the last three.
pub open spec fn short_hex(s: Seq<u8>) -> Seq<char> {
    if s.len() > 6 {
        hex_seq(s.subrange(0, 3)) + seq!['.', '.'] + hex_seq(s.subrange(s.len() - 3, s.len() as int))
    } else {
        hex_seq(s)
    }
}

/// A byte string whose debug form is shortened hexadecimal.
pub struct HexBytes<'a>(pub &'a [u8]);

/// The digit of a nibble.
fn hex_digit(n: u8) -> (r: &'static str)
    requires
        n < 16,
    ensures
        r@ == seq![hex_digits()[n as int]],
{
    proof {
        reveal_strlit("0");
        reveal_strlit("1");
        reveal_strlit("2");
        reveal_strlit("3");
        reveal_strlit("4");
        reveal_strlit("5");
        reveal_strlit("6");
        reveal_strlit("7");
        reveal_strlit("8");
        reveal_strlit("9");
        reveal_strlit("a");
        reveal_strlit("b");
        reveal_strlit("c");
        reveal_strlit("d");
        reveal_strlit("e");
        reveal_strlit("f");
    }
    let r = if n == 0 {
        "0"
    } else if n == 1 {
        "1"
    } else if n == 2 {
        "2"
    } else if n == 3 {
        "3"
    } else if n == 4 {
        "4"
    } else if n == 5 {
        "5"
    } else if n == 6 {
        "6"
    } else if n == 7 {
        "7"
    } else if n == 8 {
        "8"
    } else if n == 9 {
        "9"
    } else if n == 10 {
        "a"
    } else if n == 11 {
        "b"
    } else if n == 12 {
        "c"
    } else if n == 13 {
        "d"
    } else if n == 14 {
        "e"
    } else {
        "f"
    };
    assert(r@ =~= seq![hex_digits()[n as int]]);
    r
}

/// Appends the hex form of `b[lo..hi]` to `s`.
fn append_hex(s: &mut String, b: &[u8], lo: usize, hi: usize)
    requires
        lo <= hi <= b@.len(),
    ensures
        final(s)@ == old(s)@ + hex_seq(b@.subrange(lo as int, hi as int)),
{
    let mut i: usize = lo;
    assert(b@.subrange(lo as int, lo as int) =~= Seq::<u8>::empty());
    assert(old(s)@ + hex_seq(Seq::<u8>::empty()) =~= old(s)@);
    while i < hi
        invariant
            lo <= i <= hi <= b@.len(),
            s@ == old(s)@ + hex_seq(b@.subrange(lo as int, i as int)),
        decreases hi - i,
    {
        let x = b[i];
        let high: u8 = x >> 4;
        let low: u8 = x & 15;
        assert(high < 16 && low < 16) by (bit_vector)
            requires
                high == x >> 4u8,
                low == x & 15u8,
        ;
        let ghost before = s@;
        s.append(hex_digit(high));
        s.append(hex_digit(low));
        proof {
            let sub = b@.subrange(lo as int, i + 1);
            assert(sub.drop_last() =~= b@.subrange(lo as int, i as int));
            assert(sub.last() == x);
            assert(s@ =~= old(s)@ + hex_seq(sub));
        }
        i = i + 1;
    }
}

impl<'a> HexBytes<'a> {
    /// The shortened hex form: whole for at most six bytes, else the first
    /// three bytes, `..`, and the last three.
    pub fn to_short_hex(&self) -> (r: String)
        ensures
            r@ == short_hex(self.0@),
    {
        let b = self.0;
        let mut s = String::new();
        if b.len() > 6 {
            append_hex(&mut s, b, 0, 3);
            proof {
                reveal_strlit("..");
            }
            s.append("..");
            append_hex(&mut s, b, b.len() - 3, b.len());
        } else {
            append_hex(&mut s, b, 0, b.len());
            assert(b@.subrange(0, b@.len() as int) =~= b@);
        }
        assert(s@ =~= short_hex(b@));
        s
    }
}

} // verus!

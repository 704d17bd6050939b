//! The BER length field: one byte for 0 to 127, otherwise a marker byte
//! `0x80 | k` followed by `k` big-endian bytes, `k` from 1 to 4.

use vstd::prelude::*;
use untrusted::Reader;
use crate::error::TlvError;
use crate::reader::{read_byte, unread};

verus! {

/// The largest length that a length field can carry.
pub const MAX_LENGTH: usize = 0xFFFF_FFFF;

/// The number that `bytes` spell in base 256, most significant byte first.
pub open spec fn be_value(bytes: Seq<u8>) -> nat
    decreases bytes.len(),
{
    if bytes.len() == 0 {
        0
    } else {
        be_value(bytes.drop_last()) * 256 + bytes.last() as nat
    }
}

/// How many bytes the length field of a value of `n` bytes takes.
pub open spec fn spec_len_length(n: nat) -> nat {
    if n <= 127 {
        1
    } else if n <= 0xFF {
        2
    } else if n <= 0xFFFF {
        3
    } else if n <= 0xFF_FFFF {
        4
    } else {
        5
    }
}

/// The length field of a value of `n` bytes: the short form up to 127, else
/// the long form with as few bytes as `n` needs.
pub open spec fn len_field(n: nat) -> Seq<u8> {
    if n <= 127 {
        seq![n as u8]
    } else if n <= 0xFF {
        seq![0x81u8, n as u8]
    } else if n <= 0xFFFF {
        seq![0x82u8, (n / 0x100) as u8, (n % 0x100) as u8]
    } else if n <= 0xFF_FFFF {
        seq![0x83u8, (n / 0x1_0000) as u8, (n / 0x100 % 0x100) as u8, (n % 0x100) as u8]
    } else {
        seq![
            0x84u8,
            (n / 0x100_0000 % 0x100) as u8,
            (n / 0x1_0000 % 0x100) as u8,
            (n / 0x100 % 0x100) as u8,
            (n % 0x100) as u8,
        ]
    }
}

/// What reading a length field from `input` gives, and the bytes left after
/// it. A first byte below `0x80` is the length. Otherwise its low seven bits
/// are the count `k` of length bytes that follow: more than 4 is refused
/// with only the first byte consumed; fewer than `k` bytes left is a
/// truncation that consumes all of the input.
pub open spec fn spec_read_len(input: Seq<u8>) -> (Result<nat, TlvError>, Seq<u8>) {
    if input.len() == 0 {
        (Err(TlvError::TruncatedInput), input)
    } else if input[0] < 0x80 {
        (Ok(input[0] as nat), input.skip(1))
    } else {
        let k = input[0] - 0x80;
        if k > 4 {
            (Err(TlvError::InvalidLength), input.skip(1))
        } else if input.len() - 1 < k {
            (Err(TlvError::TruncatedInput), Seq::empty())
        } else {
            (Ok(be_value(input.subrange(1, 1 + k))), input.skip(1 + k))
        }
    }
}

/// A number spelt by `k` bytes is below `256^k`.
pub proof fn lemma_be_value_bound(bytes: Seq<u8>)
    ensures
        bytes.len() == 0 ==> be_value(bytes) == 0,
        bytes.len() == 1 ==> be_value(bytes) <= 0xFF,
        bytes.len() == 2 ==> be_value(bytes) <= 0xFFFF,
        bytes.len() == 3 ==> be_value(bytes) <= 0xFF_FFFF,
        bytes.len() == 4 ==> be_value(bytes) <= 0xFFFF_FFFF,
    decreases bytes.len(),
{
    if bytes.len() > 0 {
        lemma_be_value_bound(bytes.drop_last());
    }
}

/// A length that was read left fewer bytes than it found, at least as many
/// fewer as its own length field takes.
pub proof fn lemma_read_len_field_len(input: Seq<u8>)
    ensures
        spec_read_len(input).1.len() <= input.len(),
        spec_read_len(input).0 matches Ok(n) ==> n <= MAX_LENGTH && spec_read_len(input).1.len()
            + len_field(n).len() <= input.len(),
{
    if input.len() > 0 && input[0] >= 0x80 && input[0] - 0x80 <= 4 && input.len() - 1 >= input[0]
        - 0x80 {
        lemma_be_value_bound(input.subrange(1, 1 + (input[0] - 0x80)));
    }
}

/// Reading the length field of `n` gives `n` back and consumes exactly the field.
pub proof fn lemma_read_len_field(n: nat, rest: Seq<u8>)
    requires
        n <= MAX_LENGTH,
    ensures
        spec_read_len(len_field(n) + rest) == (Ok::<nat, TlvError>(n), rest),
        len_field(n).len() == spec_len_length(n),
{
    let f = len_field(n);
    let input = f + rest;
    assert(input.skip(f.len() as int) == rest);
    assert(input[0] == f[0]);
    if n > 127 {
        let k = (f.len() - 1) as int;
        let body = input.subrange(1, 1 + k);
        assert(body == f.skip(1));
        reveal_with_fuel(be_value, 5);
        assert(body.drop_last().len() == k - 1);
        if k == 1 {
            assert(be_value(body) == n);
        } else if k == 2 {
            assert(body.drop_last() == seq![f[1]]);
            assert(be_value(body) == n);
        } else if k == 3 {
            assert(body.drop_last() == seq![f[1], f[2]]);
            assert(body.drop_last().drop_last() == seq![f[1]]);
            assert(be_value(body) == n);
        } else {
            assert(body.drop_last() == seq![f[1], f[2], f[3]]);
            assert(body.drop_last().drop_last() == seq![f[1], f[2]]);
            assert(body.drop_last().drop_last().drop_last() == seq![f[1]]);
            assert(be_value(body) == n);
        }
    }
}

/// The length field switches from the short to the long form exactly
/// above 127, and the long form spells the length in as few bytes as it
/// needs: its marker byte counts the bytes that follow, the first of them
/// is not zero, and together they spell the length.
pub proof fn lemma_len_field_minimal(n: nat)
    requires
        n <= MAX_LENGTH,
    ensures
        len_field(n).len() == spec_len_length(n),
        n <= 127 ==> len_field(n) == seq![n as u8],
        n > 127 ==> {
            &&& len_field(n)[0] == 0x80 + len_field(n).len() - 1
            &&& len_field(n)[1] != 0
            &&& be_value(len_field(n).skip(1)) == n
        },
{
    if n > 127 {
        lemma_read_len_field(n, Seq::empty());
        let f = len_field(n);
        assert(f + Seq::<u8>::empty() =~= f);
        assert(f.subrange(1, f.len() as int) =~= f.skip(1));
    }
}

/// How many bytes the length field of a value of `l` bytes takes.
pub fn len_length(l: u32) -> (n: usize)
    ensures
        n == spec_len_length(l as nat),
        1 <= n <= 5,
{
    if l <= 127 {
        1
    } else if l <= 255 {
        2
    } else if l <= 65_535 {
        3
    } else if l <= 16_777_215 {
        4
    } else {
        5
    }
}

/// Serializes `l` as a length field. A length beyond four bytes keeps its
/// four low bytes.
pub fn len_to_vec(l: usize) -> (ret: Vec<u8>)
    ensures
        ret@ == len_field(l as nat),
{
    let mut ret: Vec<u8> = Vec::new();
    if l <= 127 {
        ret.push(l as u8);
    } else if l <= 0xFF {
        ret.push(0x81);
        ret.push(l as u8);
    } else if l <= 0xFFFF {
        ret.push(0x82);
        ret.push((l / 0x100) as u8);
        ret.push((l % 0x100) as u8);
    } else if l <= 0xFF_FFFF {
        ret.push(0x83);
        ret.push((l / 0x1_0000) as u8);
        ret.push((l / 0x100 % 0x100) as u8);
        ret.push((l % 0x100) as u8);
    } else {
        ret.push(0x84);
        ret.push((l / 0x100_0000 % 0x100) as u8);
        ret.push((l / 0x1_0000 % 0x100) as u8);
        ret.push((l / 0x100 % 0x100) as u8);
        ret.push((l % 0x100) as u8);
    }
    assert(ret@ =~= len_field(l as nat));
    ret
}

/// Reads a length field from the reader.
///
/// Fails with `TruncatedInput` when the input ends inside the field and
/// with `InvalidLength` when the field announces more than four length bytes.
pub fn read_len(r: &mut Reader) -> (res: Result<usize, TlvError>)
    ensures
        unread(*old(r)).len() <= usize::MAX,
        unread(*final(r)) == spec_read_len(unread(*old(r))).1,
        match spec_read_len(unread(*old(r))).0 {
            Ok(n) => res matches Ok(v) && v == n && n <= MAX_LENGTH,
            Err(e) => res == Err::<usize, TlvError>(e),
        },
        res is Ok ==> unread(*final(r)).len() + spec_len_length(res.unwrap() as nat) <= unread(
            *old(r),
        ).len(),
{
    let ghost input = unread(*r);
    let first = match read_byte(r) {
        Ok(x) => x,
        Err(e) => {
            return Err(TlvError::from(e));
        },
    };
    if first < 0x80 {
        return Ok(first as usize);
    }
    let n_bytes: usize = (first - 0x80) as usize;
    if n_bytes > 4 {
        return Err(TlvError::InvalidLength);
    }
    let mut ret: u32 = 0;
    let mut i: usize = 0;
    while i < n_bytes
        invariant
            i <= n_bytes <= 4,
            input == unread(*old(r)),
            input.len() >= 1,
            input[0] == first,
            first >= 0x80,
            n_bytes == first - 0x80,
            i + 1 <= input.len(),
            unread(*r) == input.skip(1 + i),
            ret == be_value(input.subrange(1, 1 + i)),
        decreases n_bytes - i,
    {
        let x = match read_byte(r) {
            Ok(x) => x,
            Err(e) => {
                assert(unread(*r) =~= Seq::<u8>::empty());
                return Err(TlvError::from(e));
            },
        };
        proof {
            let next = input.subrange(1, 2 + i);
            assert(next.drop_last() == input.subrange(1, 1 + i));
            assert(next.last() == x);
            lemma_be_value_bound(input.subrange(1, 1 + i));
            lemma_be_value_bound(next);
            assert(unread(*r) == input.skip(2 + i));
        }
        ret = ret * 256 + x as u32;
        i = i + 1;
    }
    proof {
        lemma_be_value_bound(input.subrange(1, 1 + n_bytes));
    }
    Ok(ret as usize)
}

} // verus!

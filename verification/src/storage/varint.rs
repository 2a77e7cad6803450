//! Lengths on disk: seven bits to a byte, the lowest first, with a mark on each byte but the
//! last.
use crate::error::{bad_data, failure, Error, ErrorKind, Failure};
use crate::text::owned;
use vstd::prelude::*;

verus! {

/// The bytes of a number.
pub open spec fn varint_bytes(n: nat) -> Seq<u8>
    decreases n,
{
    if n < 128 {
        seq![n as u8]
    } else {
        seq![(128 + n % 128) as u8] + varint_bytes(n / 128)
    }
}

/// How many numbers fit into the bytes that are left after `count` of them.
pub open spec fn varint_limit(count: int) -> nat
    decreases 10 - count,
{
    if count >= 10 {
        1
    } else {
        128 * varint_limit(count + 1)
    }
}

/// The failure of a number that the bytes end in.
pub open spec fn varint_cut() -> Failure {
    failure(ErrorKind::UnexpectedEof, "EOF reading varint"@)
}

/// The failure of a number that is too large.
pub open spec fn varint_too_large() -> Failure {
    bad_data("Varint exceeds 64 bits"@)
}

/// The number that stands at `at`, of whose bytes `count` were read, and where it ends.
pub open spec fn varint_from(bytes: Seq<u8>, at: int, count: int) -> (Result<nat, Failure>, int)
    decreases 10 - count,
{
    if count >= 10 {
        (Err(varint_too_large()), at)
    } else if at >= bytes.len() {
        (Err(varint_cut()), at)
    } else if bytes[at] < 128 {
        (Ok(bytes[at] as nat), at + 1)
    } else {
        match varint_from(bytes, at + 1, count + 1) {
            (Ok(rest), end) => (Ok((bytes[at] - 128) as nat + 128 * rest), end),
            (Err(f), end) => (Err(f), end),
        }
    }
}

/// The number that stands at `at`, and where it ends.
pub open spec fn varint_at(bytes: Seq<u8>, at: int) -> (Result<nat, Failure>, int) {
    match varint_from(bytes, at, 0) {
        (Ok(n), end) => if n <= u64::MAX {
            (Ok(n), end)
        } else {
            (Err(varint_too_large()), end)
        },
        (Err(f), end) => (Err(f), end),
    }
}

/// The largest number that fits is known.
proof fn lemma_limit(count: int)
    requires
        0 <= count <= 10,
    ensures
        1 <= varint_limit(count) <= 0x40_0000_0000_0000_0000,
{
    reveal_with_fuel(varint_limit, 11);
}

/// Adds the bytes of a number.
pub fn write_varint(n: u64, bytes: &mut Vec<u8>)
    ensures
        final(bytes)@ == old(bytes)@ + varint_bytes(n as nat),
{
    let ghost start = bytes@;
    let mut left: u64 = n;
    assert(start + varint_bytes(n as nat) =~= bytes@ + varint_bytes(left as nat));
    while left >= 128
        invariant
            start + varint_bytes(n as nat) == bytes@ + varint_bytes(left as nat),
        decreases left,
    {
        let ghost before = bytes@;
        bytes.push((128 + left % 128) as u8);
        proof {
            let first = (128 + left as nat % 128) as u8;
            assert(varint_bytes(left as nat) == seq![first] + varint_bytes(left as nat / 128));
            assert(before + (seq![first] + varint_bytes(left as nat / 128)) =~= before.push(first)
                + varint_bytes(left as nat / 128));
        }
        left = left / 128;
    }
    let ghost before = bytes@;
    bytes.push(left as u8);
    assert(bytes@ =~= before + seq![left as u8]);
}

fn read_from(bytes: &[u8], at: usize, count: u32) -> (r: (Result<u128, Error>, usize))
    requires
        at <= bytes@.len(),
        count <= 10,
    ensures
        at <= r.1 <= bytes@.len(),
        ({
            let (wanted, end) = varint_from(bytes@, at as int, count as int);
            &&& r.1 == end
            &&& match (wanted, r.0) {
                (Ok(n), Ok(m)) => n == m && m < varint_limit(count as int),
                (Err(f), Err(e)) => e@ == f,
                _ => false,
            }
        }),
    decreases 10 - count,
{
    proof {
        lemma_limit(count as int);
    }
    if count >= 10 {
        return (Err(Error::invalid_data(owned("Varint exceeds 64 bits"))), at);
    }
    if at >= bytes.len() {
        return (Err(Error::new(ErrorKind::UnexpectedEof, owned("EOF reading varint"))), at);
    }
    let byte: u8 = bytes[at];
    proof {
        lemma_limit(count + 1);
    }
    if byte < 128 {
        return (Ok(byte as u128), at + 1);
    }
    match read_from(bytes, at + 1, count + 1) {
        (Ok(rest), end) => (Ok((byte - 128) as u128 + 128 * rest), end),
        (Err(e), end) => (Err(e), end),
    }
}

/// Reads the number that stands at `offset`, and moves behind what was read.
pub fn read_varint(bytes: &[u8], offset: &mut usize) -> (r: Result<u64, Error>)
    requires
        *old(offset) <= bytes@.len(),
    ensures
        *old(offset) <= *final(offset) <= bytes@.len(),
        ({
            let (wanted, end) = varint_at(bytes@, *old(offset) as int);
            &&& *final(offset) == end
            &&& match (wanted, r) {
                (Ok(n), Ok(m)) => n == m,
                (Err(f), Err(e)) => e@ == f,
                _ => false,
            }
        }),
{
    let (read, end) = read_from(bytes, *offset, 0);
    *offset = end;
    match read {
        Ok(n) => {
            if n <= u64::MAX as u128 {
                Ok(n as u64)
            } else {
                Err(Error::invalid_data(owned("Varint exceeds 64 bits")))
            }
        },
        Err(e) => Err(e),
    }
}

/// The bytes of a number stand at a position, wherever that is.
proof fn lemma_varint_read(bytes: Seq<u8>, at: int, count: int, n: nat)
    requires
        0 <= count < 10,
        n < varint_limit(count),
        0 <= at,
        at + varint_bytes(n).len() <= bytes.len(),
        bytes.subrange(at, at + varint_bytes(n).len()) == varint_bytes(n),
    ensures
        varint_from(bytes, at, count) == (
            Ok::<nat, Failure>(n),
            (at + varint_bytes(n).len()) as int,
        ),
    decreases n,
{
    let own = varint_bytes(n);
    assert(own.len() >= 1);
    assert(bytes[at] == bytes.subrange(at, at + own.len())[0]);
    if n >= 128 {
        let rest = varint_bytes(n / 128);
        assert(own == seq![(128 + n % 128) as u8] + rest);
        assert(own[0] == (128 + n % 128) as u8);
        assert(bytes.subrange(at + 1, at + 1 + rest.len()) =~= rest) by {
            assert forall|k: int| 0 <= k < rest.len() implies bytes[at + 1 + k] == rest[k] by {
                assert(bytes.subrange(at, at + own.len())[k + 1] == own[k + 1]);
            }
        }
        assert(n / 128 < varint_limit(count + 1)) by (nonlinear_arith)
            requires
                n < 128 * varint_limit(count + 1),
        ;
        if count + 1 >= 10 {
            assert(varint_limit(count + 1) == 1);
            assert(n / 128 == 0);
            assert(n < 128);
        }
        lemma_varint_read(bytes, at + 1, count + 1, n / 128);
    } else {
        assert(own == seq![n as u8]);
    }
}

/// A number that was written is read back, and reading ends behind it.
pub proof fn law_varint_round_trip(before: Seq<u8>, n: u64, after: Seq<u8>)
    ensures
        varint_at(before + varint_bytes(n as nat) + after, before.len() as int) == (
            Ok::<nat, Failure>(n as nat),
            (before.len() + varint_bytes(n as nat).len()) as int,
        ),
{
    let own = varint_bytes(n as nat);
    let bytes = before + own + after;
    assert(bytes.subrange(before.len() as int, (before.len() + own.len()) as int) =~= own);
    assert(varint_limit(0) == 0x40_0000_0000_0000_0000) by {
        reveal_with_fuel(varint_limit, 11);
    }
    lemma_varint_read(bytes, before.len() as int, 0, n as nat);
}

} // verus!

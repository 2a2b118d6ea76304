//! A forward-only reader over a byte buffer.
//!
//! The buffer is a `bytes::Bytes`. Its reading methods panic when the buffer
//! runs short; [`ByteCursor`] tests the length first and reports
//! [`BBScriptError::UnexpectedEnd`] instead.

use crate::error::BBScriptError;
use bytes::Buf;
use bytes::Bytes;
use vstd::prelude::*;

verus! {

/// `bytes::Bytes`, taken as it is: the verifier sees nothing inside it, and
/// what it holds goes by the name [`bytes_contents`].
#[verifier::external_type_specification]
#[verifier::external_body]
pub struct ExBytes(bytes::Bytes);

/// The bytes that a `Bytes` still holds, front first.
pub uninterp spec fn bytes_contents(b: Bytes) -> Seq<u8>;

/// The unsigned number that the first four bytes of `s` spell, least
/// significant byte first.
pub open spec fn le_u32(s: Seq<u8>) -> u32
    recommends
        s.len() >= 4,
{
    (s[0] as int + 0x100 * (s[1] as int) + 0x1_0000 * (s[2] as int) + 0x100_0000 * (
    s[3] as int)) as u32
}

/// The two's complement number that the first four bytes of `s` spell, least
/// significant byte first.
pub open spec fn le_i32(s: Seq<u8>) -> i32
    recommends
        s.len() >= 4,
{
    if le_u32(s) < 0x8000_0000 {
        le_u32(s) as int as i32
    } else {
        (le_u32(s) as int - 0x1_0000_0000) as i32
    }
}

/// `Bytes::from` on a `Vec<u8>`: the buffer holds the bytes of the vector, in
/// order.
#[verifier::external_body]
fn bytes_from_vec(data: Vec<u8>) -> (b: Bytes)
    ensures
        bytes_contents(b) == data@,
{
    Bytes::from(data)
}

/// `Buf::remaining` on a `Bytes`: the number of bytes left.
#[verifier::external_body]
fn bytes_remaining(b: &Bytes) -> (n: usize)
    ensures
        n == bytes_contents(*b).len(),
{
    b.remaining()
}

/// `Buf::get_u32_le` on a `Bytes`: takes four bytes off the front and returns
/// them as a little-endian number. It panics on fewer than four bytes, which
/// the precondition rules out.
#[verifier::external_body]
fn bytes_get_u32_le(b: &mut Bytes) -> (v: u32)
    requires
        bytes_contents(*old(b)).len() >= 4,
    ensures
        v == le_u32(bytes_contents(*old(b))),
        bytes_contents(*final(b)) == bytes_contents(*old(b)).skip(4),
{
    b.get_u32_le()
}

/// `Buf::get_i32_le` on a `Bytes`: takes four bytes off the front and returns
/// them as a little-endian two's complement number. It panics on fewer than
/// four bytes, which the precondition rules out.
#[verifier::external_body]
fn bytes_get_i32_le(b: &mut Bytes) -> (v: i32)
    requires
        bytes_contents(*old(b)).len() >= 4,
    ensures
        v == le_i32(bytes_contents(*old(b))),
        bytes_contents(*final(b)) == bytes_contents(*old(b)).skip(4),
{
    b.get_i32_le()
}

/// `Buf::get_u8` on a `Bytes`: takes the first byte off the front. It panics
/// on an empty buffer, which the precondition rules out.
#[verifier::external_body]
fn bytes_get_u8(b: &mut Bytes) -> (v: u8)
    requires
        bytes_contents(*old(b)).len() >= 1,
    ensures
        v == bytes_contents(*old(b))[0],
        bytes_contents(*final(b)) == bytes_contents(*old(b)).skip(1),
{
    b.get_u8()
}

/// `Buf::copy_to_slice` on a `Bytes`, into an array of `N` bytes: takes `N`
/// bytes off the front and returns them in order. It panics on fewer than `N`
/// bytes, which the precondition rules out.
#[verifier::external_body]
fn bytes_copy_to_array<const N: usize>(b: &mut Bytes) -> (out: [u8; N])
    requires
        bytes_contents(*old(b)).len() >= N,
    ensures
        out@ == bytes_contents(*old(b)).take(N as int),
        bytes_contents(*final(b)) == bytes_contents(*old(b)).skip(N as int),
{
    let mut out = [0u8; N];
    b.copy_to_slice(&mut out);
    out
}

/// `Buf::advance` on a `Bytes`: drops `n` bytes from the front. It panics
/// when `n` is more than what is left, which the precondition rules out.
#[verifier::external_body]
fn bytes_advance(b: &mut Bytes, n: usize)
    requires
        n <= bytes_contents(*old(b)).len(),
    ensures
        bytes_contents(*final(b)) == bytes_contents(*old(b)).skip(n as int),
{
    b.advance(n)
}

/// A reader that hands out the bytes of a buffer from front to back.
///
/// Its view is what is left to read. A read that the buffer cannot serve
/// fails with [`BBScriptError::UnexpectedEnd`] and leaves the cursor where it
/// was.
pub struct ByteCursor {
    buf: Bytes,
}

impl View for ByteCursor {
    type V = Seq<u8>;

    /// The bytes not yet read.
    closed spec fn view(&self) -> Seq<u8> {
        bytes_contents(self.buf)
    }
}

impl ByteCursor {
    /// A cursor at the front of `buf`.
    pub fn new(buf: Bytes) -> (cursor: ByteCursor)
        ensures
            cursor@ == bytes_contents(buf),
    {
        ByteCursor { buf }
    }

    /// A cursor at the front of `data`.
    pub fn from_vec(data: Vec<u8>) -> (cursor: ByteCursor)
        ensures
            cursor@ == data@,
    {
        ByteCursor { buf: bytes_from_vec(data) }
    }

    /// The number of bytes not yet read.
    pub fn remaining(&self) -> (n: usize)
        ensures
            n == self@.len(),
    {
        bytes_remaining(&self.buf)
    }

    /// Reads a little-endian `u32` and moves four bytes on.
    pub fn read_u32_le(&mut self) -> (r: Result<u32, BBScriptError>)
        ensures
            old(self)@.len() >= 4 ==> r == Ok::<u32, BBScriptError>(le_u32(old(self)@))
                && final(self)@ == old(self)@.skip(4),
            old(self)@.len() < 4 ==> r == Err::<u32, BBScriptError>(BBScriptError::UnexpectedEnd)
                && final(self)@ == old(self)@,
    {
        if bytes_remaining(&self.buf) < 4 {
            return Err(BBScriptError::UnexpectedEnd);
        }
        Ok(bytes_get_u32_le(&mut self.buf))
    }

    /// Reads a little-endian `i32` and moves four bytes on.
    pub fn read_i32_le(&mut self) -> (r: Result<i32, BBScriptError>)
        ensures
            old(self)@.len() >= 4 ==> r == Ok::<i32, BBScriptError>(le_i32(old(self)@))
                && final(self)@ == old(self)@.skip(4),
            old(self)@.len() < 4 ==> r == Err::<i32, BBScriptError>(BBScriptError::UnexpectedEnd)
                && final(self)@ == old(self)@,
    {
        if bytes_remaining(&self.buf) < 4 {
            return Err(BBScriptError::UnexpectedEnd);
        }
        Ok(bytes_get_i32_le(&mut self.buf))
    }

    /// Reads one byte and moves one byte on.
    pub fn read_u8(&mut self) -> (r: Result<u8, BBScriptError>)
        ensures
            old(self)@.len() >= 1 ==> r == Ok::<u8, BBScriptError>(old(self)@[0]) && final(self)@
                == old(self)@.skip(1),
            old(self)@.len() < 1 ==> r == Err::<u8, BBScriptError>(BBScriptError::UnexpectedEnd)
                && final(self)@ == old(self)@,
    {
        if bytes_remaining(&self.buf) < 1 {
            return Err(BBScriptError::UnexpectedEnd);
        }
        Ok(bytes_get_u8(&mut self.buf))
    }

    /// Reads `N` bytes into an array and moves `N` bytes on.
    pub fn read_array<const N: usize>(&mut self) -> (r: Result<[u8; N], BBScriptError>)
        ensures
            old(self)@.len() >= N ==> r is Ok && r->Ok_0@ == old(self)@.take(N as int)
                && final(self)@ == old(self)@.skip(N as int),
            old(self)@.len() < N ==> r == Err::<[u8; N], BBScriptError>(
                BBScriptError::UnexpectedEnd,
            ) && final(self)@ == old(self)@,
    {
        if bytes_remaining(&self.buf) < N {
            return Err(BBScriptError::UnexpectedEnd);
        }
        Ok(bytes_copy_to_array::<N>(&mut self.buf))
    }

    /// Reads `n` bytes, one at a time, and moves `n` bytes on.
    pub fn read_bytes(&mut self, n: usize) -> (r: Result<Vec<u8>, BBScriptError>)
        ensures
            old(self)@.len() >= n ==> r is Ok && r->Ok_0@ == old(self)@.take(n as int)
                && final(self)@ == old(self)@.skip(n as int),
            old(self)@.len() < n ==> r == Err::<Vec<u8>, BBScriptError>(
                BBScriptError::UnexpectedEnd,
            ) && final(self)@ == old(self)@,
    {
        if bytes_remaining(&self.buf) < n {
            return Err(BBScriptError::UnexpectedEnd);
        }
        let ghost start = self@;
        let mut out: Vec<u8> = Vec::new();
        let mut i: usize = 0;
        while i < n
            invariant
                i <= n <= start.len(),
                out@ == start.take(i as int),
                self@ == start.skip(i as int),
            decreases n - i,
        {
            let byte = bytes_get_u8(&mut self.buf);
            out.push(byte);
            i += 1;
        }
        Ok(out)
    }

    /// Moves `n` bytes on without looking at them.
    pub fn skip(&mut self, n: usize) -> (r: Result<(), BBScriptError>)
        ensures
            old(self)@.len() >= n ==> r is Ok && final(self)@ == old(self)@.skip(n as int),
            old(self)@.len() < n ==> r == Err::<(), BBScriptError>(BBScriptError::UnexpectedEnd)
                && final(self)@ == old(self)@,
    {
        if bytes_remaining(&self.buf) < n {
            return Err(BBScriptError::UnexpectedEnd);
        }
        bytes_advance(&mut self.buf, n);
        Ok(())
    }
}

} // verus!

//! Fixed-width identifiers: of fabrics of agents, and of agents on an in-memory fabric.

use vstd::prelude::*;
use vstd::string::StringExecFns;

verus! {

/// Byte `i` (0 = least significant) of the little-endian encoding of `value`.
pub open spec fn le_byte(value: u64, i: nat) -> u8 {
    ((value >> (8 * i) as u64) & 0xff) as u8
}

/// Identifier of a fabric, for connecting several fabrics.
#[derive(Debug, Clone, Copy, PartialEq, Eq, Hash)]
pub struct FabricId([u8; 16]);

impl View for FabricId {
    type V = Seq<u8>;

    closed spec fn view(&self) -> Seq<u8> {
        self.0@
    }
}

impl FabricId {
    pub fn from_bytes(bytes: [u8; 16]) -> (id: FabricId)
        ensures
            id@ == bytes@,
    {
        FabricId(bytes)
    }

    pub fn as_bytes(&self) -> (bytes: &[u8; 16])
        ensures
            bytes@ == self@,
    {
        &self.0
    }

    /// The identifier numbered `counter`: its little-endian bytes followed by eight zero
    /// bytes.
    pub fn from_counter(counter: u64) -> (id: FabricId)
        ensures
            id@.len() == 16,
            forall|i: int| 0 <= i < 8 ==> #[trigger] id@[i] == le_byte(counter, i as nat),
            forall|i: int| 8 <= i < 16 ==> #[trigger] id@[i] == 0,
    {
        let le = le_bytes(counter);
        let mut bytes = [0u8; 16];
        let mut i: usize = 0;
        while i < 8
            invariant
                i <= 8,
                bytes@.len() == 16,
                forall|j: int| 0 <= j < 8 ==> #[trigger] le@[j] == le_byte(counter, j as nat),
                forall|j: int| 0 <= j < i ==> #[trigger] bytes@[j] == le_byte(counter, j as nat),
                forall|j: int| 8 <= j < 16 ==> #[trigger] bytes@[j] == 0,
            decreases 8 - i,
        {
            bytes[i] = le[i];
            i = i + 1;
        }
        FabricId(bytes)
    }

    /// The identifier's short display form: `fabric-` and its first four bytes in lower-case
    /// hexadecimal.
    pub fn label(&self) -> (s: String)
        ensures
            s@ == seq!['f', 'a', 'b', 'r', 'i', 'c', '-'] + hex_pair(self@[0]) + hex_pair(self@[1])
                + hex_pair(self@[2]) + hex_pair(self@[3]),
    {
        let mut s = String::new();
        proof {
            reveal_strlit("fabric-");
        }
        s.append("fabric-");
        push_hex_byte(&mut s, self.0[0]);
        push_hex_byte(&mut s, self.0[1]);
        push_hex_byte(&mut s, self.0[2]);
        push_hex_byte(&mut s, self.0[3]);
        s
    }
}

/// The address of an agent on an in-memory fabric: 32 bytes.
#[derive(Debug, Clone, Copy, PartialEq, Eq, Hash)]
pub struct InMemoryAddress([u8; 32]);

impl View for InMemoryAddress {
    type V = Seq<u8>;

    closed spec fn view(&self) -> Seq<u8> {
        self.0@
    }
}

impl InMemoryAddress {
    pub fn from_bytes(bytes: [u8; 32]) -> (a: InMemoryAddress)
        ensures
            a@ == bytes@,
    {
        InMemoryAddress(bytes)
    }

    pub fn as_bytes(&self) -> (bytes: &[u8; 32])
        ensures
            bytes@ == self@,
    {
        &self.0
    }

    /// The address numbered `counter`: its little-endian bytes followed by 24 zero bytes.
    pub fn from_counter(counter: u64) -> (a: InMemoryAddress)
        ensures
            a@.len() == 32,
            forall|i: int| 0 <= i < 8 ==> #[trigger] a@[i] == le_byte(counter, i as nat),
            forall|i: int| 8 <= i < 32 ==> #[trigger] a@[i] == 0,
    {
        let le = le_bytes(counter);
        let mut bytes = [0u8; 32];
        let mut i: usize = 0;
        while i < 8
            invariant
                i <= 8,
                bytes@.len() == 32,
                forall|j: int| 0 <= j < 8 ==> #[trigger] le@[j] == le_byte(counter, j as nat),
                forall|j: int| 0 <= j < i ==> #[trigger] bytes@[j] == le_byte(counter, j as nat),
                forall|j: int| 8 <= j < 32 ==> #[trigger] bytes@[j] == 0,
            decreases 8 - i,
        {
            bytes[i] = le[i];
            i = i + 1;
        }
        InMemoryAddress(bytes)
    }

    /// The address's short display form: `agent-` and its first four bytes in lower-case
    /// hexadecimal.
    pub fn label(&self) -> (s: String)
        ensures
            s@ == seq!['a', 'g', 'e', 'n', 't', '-'] + hex_pair(self@[0]) + hex_pair(self@[1])
                + hex_pair(self@[2]) + hex_pair(self@[3]),
    {
        let mut s = String::new();
        proof {
            reveal_strlit("agent-");
        }
        s.append("agent-");
        push_hex_byte(&mut s, self.0[0]);
        push_hex_byte(&mut s, self.0[1]);
        push_hex_byte(&mut s, self.0[2]);
        push_hex_byte(&mut s, self.0[3]);
        s
    }
}

/// The little-endian bytes of `value`.
fn le_bytes(value: u64) -> (b: [u8; 8])
    ensures
        forall|i: int| 0 <= i < 8 ==> #[trigger] b@[i] == le_byte(value, i as nat),
{
    let mut bytes = [0u8; 8];
    let mut rest = value;
    let mut i: usize = 0;
    assert(value >> 0u64 == value) by (bit_vector);
    while i < 8
        invariant
            i <= 8,
            bytes@.len() == 8,
            rest == value >> (8 * i) as u64,
            forall|j: int| 0 <= j < i ==> #[trigger] bytes@[j] == le_byte(value, j as nat),
        decreases 8 - i,
    {
        let byte = (rest & 0xff) as u8;
        bytes[i] = byte;
        let ghost shift = (8 * i) as u64;
        proof {
            assert(shift < 64);
            assert((value >> shift) >> 8u64 == value >> (shift + 8) as u64) by (bit_vector)
                requires
                    shift < 64,
                    shift % 8 == 0,
            ;
        }
        rest = rest >> 8;
        i = i + 1;
    }
    bytes
}

/// The lower-case hexadecimal digit for `d`, which is below 16.
pub open spec fn hex_char(d: nat) -> char {
    if d == 0 { '0' } else if d == 1 { '1' } else if d == 2 { '2' } else if d == 3 { '3' }
    else if d == 4 { '4' } else if d == 5 { '5' } else if d == 6 { '6' } else if d == 7 { '7' }
    else if d == 8 { '8' } else if d == 9 { '9' } else if d == 10 { 'a' } else if d == 11 { 'b' }
    else if d == 12 { 'c' } else if d == 13 { 'd' } else if d == 14 { 'e' } else { 'f' }
}

/// The two lower-case hexadecimal digits of byte `b`, high digit first.
pub open spec fn hex_pair(b: u8) -> Seq<char> {
    seq![hex_char((b / 16) as nat), hex_char((b % 16) as nat)]
}

/// The one-character text of hexadecimal digit `d`.
fn hex_text(d: u8) -> (s: &'static str)
    requires
        d < 16,
    ensures
        s@ == seq![hex_char(d as nat)],
{
    proof {
        reveal_strlit("0");
        reveal_strlit("1");
        reveal_strlit("2");
        reveal_strlit("3");
        reveal_strlit("4");
        reveal_strlit("5");
        reveal_strlit("6");
        reveal_strlit("7");
        reveal_strlit("8");
        reveal_strlit("9");
        reveal_strlit("a");
        reveal_strlit("b");
        reveal_strlit("c");
        reveal_strlit("d");
        reveal_strlit("e");
        reveal_strlit("f");
    }
    match d {
        0 => "0",
        1 => "1",
        2 => "2",
        3 => "3",
        4 => "4",
        5 => "5",
        6 => "6",
        7 => "7",
        8 => "8",
        9 => "9",
        10 => "a",
        11 => "b",
        12 => "c",
        13 => "d",
        14 => "e",
        _ => "f",
    }
}

/// Appends the two hexadecimal digits of `b` to `out`.
fn push_hex_byte(out: &mut String, b: u8)
    ensures
        final(out)@ == old(out)@ + hex_pair(b),
{
    out.append(hex_text(b / 16));
    out.append(hex_text(b % 16));
}

} // verus!

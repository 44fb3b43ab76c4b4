//! Conversion of values to and from bytes.

use vstd::prelude::*;

verus! {

/// `s` appears in `bytes` starting at `pos`.
pub open spec fn prefix_at(bytes: Seq<u8>, pos: int, s: Seq<u8>) -> bool {
    &&& 0 <= pos
    &&& pos + s.len() <= bytes.len()
    &&& bytes.subrange(pos, pos + s.len()) == s
}

/// Where two pieces appear one after the other, each appears.
pub proof fn lemma_prefix_at_concat(bytes: Seq<u8>, pos: int, a: Seq<u8>, b: Seq<u8>)
    requires
        prefix_at(bytes, pos, a + b),
    ensures
        prefix_at(bytes, pos, a),
        prefix_at(bytes, pos + a.len(), b),
{
    let whole = bytes.subrange(pos, pos + a.len() + b.len());
    assert forall|i: int| 0 <= i < a.len() implies bytes.subrange(pos, pos + a.len())[i] == a[i] by {
        assert(whole[i] == (a + b)[i]);
    }
    assert forall|i: int| 0 <= i < b.len() implies bytes.subrange(pos + a.len(), pos + a.len() + b.len())[i] == b[i] by {
        assert(whole[a.len() + i] == (a + b)[a.len() + i]);
    }
    assert(bytes.subrange(pos, pos + a.len()) =~= a);
    assert(bytes.subrange(pos + a.len(), pos + a.len() + b.len()) =~= b);
}

/// Adjacent ranges of bytes join up.
pub proof fn lemma_subrange_join(bytes: Seq<u8>, a: int, b: int, c: int)
    requires
        0 <= a <= b <= c <= bytes.len(),
    ensures
        bytes.subrange(a, c) == bytes.subrange(a, b) + bytes.subrange(b, c),
{
    assert(bytes.subrange(a, c) =~= bytes.subrange(a, b) + bytes.subrange(b, c));
}

/// Implemented by values which can be written to bytes and read back from them.
pub trait Serializable: Sized {
    /// The value can be written to bytes.
    spec fn serializable(&self) -> bool;

    /// The bytes which the value is written to.
    spec fn spec_serialize(&self) -> Seq<u8>;

    /// Writes this value to bytes.
    fn serialize(&self) -> (r: Vec<u8>)
        requires
            self.serializable(),
        ensures
            r@ == self.spec_serialize(),
    ;

    /// Reads a value from the bytes at the given position, moving the position past the bytes
    /// read.
    fn deserialize(bytes: &[u8], pos: &mut usize) -> (r: Option<Self>)
        requires
            *old(pos) <= bytes@.len(),
        ensures
            *final(pos) <= bytes@.len(),
            r matches Some(x) ==> *old(pos) <= *final(pos) && bytes@.subrange(
                *old(pos) as int,
                *final(pos) as int,
            ) == x.spec_serialize(),
    ;
}

/// A count written in a variable-length form: one 0xFF byte for each full 255, then a byte with
/// the remainder. So 254 is written as 0xFE, 255 as 0xFF 0x00, and 512 as 0xFF 0xFF 0x02. Every
/// primitive integer is written this way; a negative one cannot be.
pub open spec fn ser_count(n: nat) -> Seq<u8>
    decreases n,
{
    if n < 255 {
        seq![n as u8]
    } else {
        seq![0xFFu8] + ser_count((n - 255) as nat)
    }
}

/// Writes a count in its variable-length form.
fn write_count(n: u128) -> (r: Vec<u8>)
    ensures
        r@ == ser_count(n as nat),
{
    let mut result: Vec<u8> = Vec::new();
    let mut current = n;
    while current >= 0xFF
        invariant
            result@ + ser_count(current as nat) == ser_count(n as nat),
        decreases current,
    {
        let ghost before = result@;
        current = current - 0xFF;
        result.push(0xFF);
        assert(result@ + ser_count(current as nat) =~= before + ser_count((current + 255) as nat));
    }
    result.push(current as u8);
    assert(result@ =~= ser_count(n as nat));
    result
}

/// Reads a count of at most `max` in its variable-length form, moving the position past it.
fn read_count(bytes: &[u8], pos: &mut usize, max: u128) -> (r: Option<u128>)
    requires
        *old(pos) <= bytes@.len(),
    ensures
        *final(pos) <= bytes@.len(),
        r matches Some(x) ==> x <= max && *old(pos) <= *final(pos) && bytes@.subrange(
            *old(pos) as int,
            *final(pos) as int,
        ) == ser_count(x as nat),
        forall|n: nat|
            n <= max && prefix_at(bytes@, *old(pos) as int, #[trigger] ser_count(n)) ==> r == Some(n as u128)
                && *final(pos) == *old(pos) + ser_count(n).len(),
{
    let start = *pos;
    let mut result: u128 = 0;
    loop
        invariant
            start <= *pos <= bytes@.len(),
            start == *old(pos),
            bytes@.subrange(start as int, *pos as int) == Seq::new(
                (*pos - start) as nat,
                |i: int| 0xFFu8,
            ),
            result == 255 * (*pos - start),
            result <= max,
            forall|n: nat|
                n <= max && prefix_at(bytes@, start as int, #[trigger] ser_count(n)) ==> n >= result
                    && prefix_at(bytes@, *pos as int, ser_count((n - result) as nat)),
        decreases bytes@.len() - *pos,
    {
        if *pos >= bytes.len() {
            proof {
                assert forall|n: nat| n <= max implies !prefix_at(bytes@, start as int, ser_count(n)) by {
                    if prefix_at(bytes@, start as int, ser_count(n)) {
                        assert(ser_count((n - result) as nat).len() > 0) by {
                            reveal_with_fuel(ser_count, 2);
                        }
                    }
                }
            }
            return None;
        }
        let byte = bytes[*pos];
        let ghost previous = *pos;
        *pos = *pos + 1;
        proof {
            lemma_subrange_join(bytes@, start as int, previous as int, *pos as int);
        }
        if byte != 0xFF {
            match (if byte as u128 <= max - result { Some(result + byte as u128) } else { None }) {
                Some(total) => {
                    proof {
                        assert forall|n: nat|
                            n <= max && prefix_at(bytes@, start as int, #[trigger] ser_count(n)) implies n == total
                                && *pos == start + ser_count(n).len() by {
                            let k = (n - result) as nat;
                            assert(bytes@[previous as int] == ser_count(k)[0]);
                            if k >= 255 {
                                assert(ser_count(k)[0] == 0xFFu8);
                            }
                            lemma_count_len(n, result as nat);
                        }
                        assert(bytes@.subrange(start as int, *pos as int) =~= ser_count(total as nat)) by {
                            lemma_count_of_run(result as nat, byte);
                        }
                    }
                    return Some(total);
                },
                None => {
                    proof {
                        assert forall|n: nat| n <= max implies !prefix_at(bytes@, start as int, ser_count(n)) by {
                            if prefix_at(bytes@, start as int, ser_count(n)) {
                                let k = (n - result) as nat;
                                assert(bytes@[previous as int] == ser_count(k)[0]);
                                if k >= 255 {
                                    assert(ser_count(k)[0] == 0xFFu8);
                                }
                            }
                        }
                    }
                    return None;
                },
            }
        }
        if max - result < 255 {
            proof {
                assert forall|n: nat| n <= max implies !prefix_at(bytes@, start as int, ser_count(n)) by {
                    if prefix_at(bytes@, start as int, ser_count(n)) {
                        let k = (n - result) as nat;
                        assert(bytes@[previous as int] == ser_count(k)[0]);
                        if k < 255 {
                            assert(ser_count(k)[0] == k as u8);
                        }
                    }
                }
            }
            return None;
        }
        proof {
            assert forall|n: nat|
                n <= max && prefix_at(bytes@, start as int, #[trigger] ser_count(n)) implies n >= result + 255
                    && prefix_at(bytes@, *pos as int, ser_count((n - result - 255) as nat)) by {
                let k = (n - result) as nat;
                assert(bytes@[previous as int] == ser_count(k)[0]);
                if k < 255 {
                    assert(ser_count(k)[0] == k as u8);
                }
                lemma_prefix_at_concat(bytes@, previous as int, seq![0xFFu8], ser_count((k - 255) as nat));
            }
            assert(bytes@.subrange(start as int, *pos as int) =~= Seq::new(
                (*pos - start) as nat,
                |i: int| 0xFFu8,
            ));
        }
        result = result + 255;
    }
}

impl Serializable for u8 {
    open spec fn serializable(&self) -> bool {
        true
    }

    open spec fn spec_serialize(&self) -> Seq<u8> {
        ser_count(*self as nat)
    }

    fn serialize(&self) -> (r: Vec<u8>) {
        write_count(*self as u128)
    }

    fn deserialize(bytes: &[u8], pos: &mut usize) -> (r: Option<Self>)
        ensures
            forall|n: u8|
                prefix_at(bytes@, *old(pos) as int, #[trigger] ser_count(n as nat)) ==> r == Some(n)
                    && *final(pos) == *old(pos) + ser_count(n as nat).len(),
    {
        match read_count(bytes, pos, u8::MAX as u128) {
            Some(v) => Some(v as u8),
            None => None,
        }
    }
}

impl Serializable for u16 {
    open spec fn serializable(&self) -> bool {
        true
    }

    open spec fn spec_serialize(&self) -> Seq<u8> {
        ser_count(*self as nat)
    }

    fn serialize(&self) -> (r: Vec<u8>) {
        write_count(*self as u128)
    }

    fn deserialize(bytes: &[u8], pos: &mut usize) -> (r: Option<Self>)
        ensures
            forall|n: u16|
                prefix_at(bytes@, *old(pos) as int, #[trigger] ser_count(n as nat)) ==> r == Some(n)
                    && *final(pos) == *old(pos) + ser_count(n as nat).len(),
    {
        match read_count(bytes, pos, u16::MAX as u128) {
            Some(v) => Some(v as u16),
            None => None,
        }
    }
}

impl Serializable for u32 {
    open spec fn serializable(&self) -> bool {
        true
    }

    open spec fn spec_serialize(&self) -> Seq<u8> {
        ser_count(*self as nat)
    }

    fn serialize(&self) -> (r: Vec<u8>) {
        write_count(*self as u128)
    }

    fn deserialize(bytes: &[u8], pos: &mut usize) -> (r: Option<Self>)
        ensures
            forall|n: u32|
                prefix_at(bytes@, *old(pos) as int, #[trigger] ser_count(n as nat)) ==> r == Some(n)
                    && *final(pos) == *old(pos) + ser_count(n as nat).len(),
    {
        match read_count(bytes, pos, u32::MAX as u128) {
            Some(v) => Some(v as u32),
            None => None,
        }
    }
}

impl Serializable for u64 {
    open spec fn serializable(&self) -> bool {
        true
    }

    open spec fn spec_serialize(&self) -> Seq<u8> {
        ser_count(*self as nat)
    }

    fn serialize(&self) -> (r: Vec<u8>) {
        write_count(*self as u128)
    }

    fn deserialize(bytes: &[u8], pos: &mut usize) -> (r: Option<Self>)
        ensures
            forall|n: u64|
                prefix_at(bytes@, *old(pos) as int, #[trigger] ser_count(n as nat)) ==> r == Some(n)
                    && *final(pos) == *old(pos) + ser_count(n as nat).len(),
    {
        match read_count(bytes, pos, u64::MAX as u128) {
            Some(v) => Some(v as u64),
            None => None,
        }
    }
}

impl Serializable for u128 {
    open spec fn serializable(&self) -> bool {
        true
    }

    open spec fn spec_serialize(&self) -> Seq<u8> {
        ser_count(*self as nat)
    }

    fn serialize(&self) -> (r: Vec<u8>) {
        write_count(*self as u128)
    }

    fn deserialize(bytes: &[u8], pos: &mut usize) -> (r: Option<Self>)
        ensures
            forall|n: u128|
                prefix_at(bytes@, *old(pos) as int, #[trigger] ser_count(n as nat)) ==> r == Some(n)
                    && *final(pos) == *old(pos) + ser_count(n as nat).len(),
    {
        match read_count(bytes, pos, u128::MAX as u128) {
            Some(v) => Some(v as u128),
            None => None,
        }
    }
}

impl Serializable for usize {
    open spec fn serializable(&self) -> bool {
        true
    }

    open spec fn spec_serialize(&self) -> Seq<u8> {
        ser_count(*self as nat)
    }

    fn serialize(&self) -> (r: Vec<u8>) {
        write_count(*self as u128)
    }

    fn deserialize(bytes: &[u8], pos: &mut usize) -> (r: Option<Self>)
        ensures
            forall|n: usize|
                prefix_at(bytes@, *old(pos) as int, #[trigger] ser_count(n as nat)) ==> r == Some(n)
                    && *final(pos) == *old(pos) + ser_count(n as nat).len(),
    {
        match read_count(bytes, pos, usize::MAX as u128) {
            Some(v) => Some(v as usize),
            None => None,
        }
    }
}

impl Serializable for i8 {
    open spec fn serializable(&self) -> bool {
        *self >= 0
    }

    open spec fn spec_serialize(&self) -> Seq<u8> {
        ser_count(*self as nat)
    }

    fn serialize(&self) -> (r: Vec<u8>) {
        write_count(*self as u128)
    }

    fn deserialize(bytes: &[u8], pos: &mut usize) -> (r: Option<Self>)
        ensures
            forall|n: i8|
                n >= 0 && prefix_at(bytes@, *old(pos) as int, #[trigger] ser_count(n as nat)) ==> r == Some(n)
                    && *final(pos) == *old(pos) + ser_count(n as nat).len(),
    {
        match read_count(bytes, pos, i8::MAX as u128) {
            Some(v) => Some(v as i8),
            None => None,
        }
    }
}

impl Serializable for i16 {
    open spec fn serializable(&self) -> bool {
        *self >= 0
    }

    open spec fn spec_serialize(&self) -> Seq<u8> {
        ser_count(*self as nat)
    }

    fn serialize(&self) -> (r: Vec<u8>) {
        write_count(*self as u128)
    }

    fn deserialize(bytes: &[u8], pos: &mut usize) -> (r: Option<Self>)
        ensures
            forall|n: i16|
                n >= 0 && prefix_at(bytes@, *old(pos) as int, #[trigger] ser_count(n as nat)) ==> r == Some(n)
                    && *final(pos) == *old(pos) + ser_count(n as nat).len(),
    {
        match read_count(bytes, pos, i16::MAX as u128) {
            Some(v) => Some(v as i16),
            None => None,
        }
    }
}

impl Serializable for i32 {
    open spec fn serializable(&self) -> bool {
        *self >= 0
    }

    open spec fn spec_serialize(&self) -> Seq<u8> {
        ser_count(*self as nat)
    }

    fn serialize(&self) -> (r: Vec<u8>) {
        write_count(*self as u128)
    }

    fn deserialize(bytes: &[u8], pos: &mut usize) -> (r: Option<Self>)
        ensures
            forall|n: i32|
                n >= 0 && prefix_at(bytes@, *old(pos) as int, #[trigger] ser_count(n as nat)) ==> r == Some(n)
                    && *final(pos) == *old(pos) + ser_count(n as nat).len(),
    {
        match read_count(bytes, pos, i32::MAX as u128) {
            Some(v) => Some(v as i32),
            None => None,
        }
    }
}

impl Serializable for i64 {
    open spec fn serializable(&self) -> bool {
        *self >= 0
    }

    open spec fn spec_serialize(&self) -> Seq<u8> {
        ser_count(*self as nat)
    }

    fn serialize(&self) -> (r: Vec<u8>) {
        write_count(*self as u128)
    }

    fn deserialize(bytes: &[u8], pos: &mut usize) -> (r: Option<Self>)
        ensures
            forall|n: i64|
                n >= 0 && prefix_at(bytes@, *old(pos) as int, #[trigger] ser_count(n as nat)) ==> r == Some(n)
                    && *final(pos) == *old(pos) + ser_count(n as nat).len(),
    {
        match read_count(bytes, pos, i64::MAX as u128) {
            Some(v) => Some(v as i64),
            None => None,
        }
    }
}

impl Serializable for i128 {
    open spec fn serializable(&self) -> bool {
        *self >= 0
    }

    open spec fn spec_serialize(&self) -> Seq<u8> {
        ser_count(*self as nat)
    }

    fn serialize(&self) -> (r: Vec<u8>) {
        write_count(*self as u128)
    }

    fn deserialize(bytes: &[u8], pos: &mut usize) -> (r: Option<Self>)
        ensures
            forall|n: i128|
                n >= 0 && prefix_at(bytes@, *old(pos) as int, #[trigger] ser_count(n as nat)) ==> r == Some(n)
                    && *final(pos) == *old(pos) + ser_count(n as nat).len(),
    {
        match read_count(bytes, pos, i128::MAX as u128) {
            Some(v) => Some(v as i128),
            None => None,
        }
    }
}

impl Serializable for isize {
    open spec fn serializable(&self) -> bool {
        *self >= 0
    }

    open spec fn spec_serialize(&self) -> Seq<u8> {
        ser_count(*self as nat)
    }

    fn serialize(&self) -> (r: Vec<u8>) {
        write_count(*self as u128)
    }

    fn deserialize(bytes: &[u8], pos: &mut usize) -> (r: Option<Self>)
        ensures
            forall|n: isize|
                n >= 0 && prefix_at(bytes@, *old(pos) as int, #[trigger] ser_count(n as nat)) ==> r == Some(n)
                    && *final(pos) == *old(pos) + ser_count(n as nat).len(),
    {
        match read_count(bytes, pos, isize::MAX as u128) {
            Some(v) => Some(v as isize),
            None => None,
        }
    }
}

/// The length of the form of a count, after some full 255s have been read.
proof fn lemma_count_len(n: nat, read: nat)
    requires
        read <= n,
        n - read < 255,
        read % 255 == 0,
    ensures
        ser_count(n).len() == read / 255 + 1,
    decreases read,
{
    if read > 0 {
        lemma_count_len((n - 255) as nat, (read - 255) as nat);
    }
}

/// A run of 0xFF bytes followed by a smaller byte is the form of a count.
proof fn lemma_count_of_run(read: nat, last: u8)
    requires
        read % 255 == 0,
        last != 0xFF,
    ensures
        Seq::new(read / 255, |i: int| 0xFFu8).push(last) =~= ser_count(read + last as nat),
    decreases read,
{
    if read > 0 {
        lemma_count_of_run((read - 255) as nat, last);
        assert(Seq::new(read / 255, |i: int| 0xFFu8).push(last) =~= seq![0xFFu8] + Seq::new(
            ((read - 255) as nat) / 255,
            |i: int| 0xFFu8,
        ).push(last));
    }
}

} // verus!

use vstd::prelude::*;

verus! {

/// LEB128 encoding of `v`: seven bits per byte, least significant group first, the
/// high bit set on every byte but the last.
pub open spec fn varuint_bytes(v: u64) -> Seq<u8>
    decreases v,
{
    if v < 128 {
        seq![v as u8]
    } else {
        seq![(v % 128 + 128) as u8] + varuint_bytes(v / 128)
    }
}

/// Why a varuint could not be read.
pub enum VarError {
    Overflow,
    Eof,
}

pub open spec fn var_error_text(e: VarError) -> Seq<char> {
    match e {
        VarError::Overflow => "LEB128 overflow"@,
        VarError::Eof => "Unexpected EOF decoding varuint"@,
    }
}

/// Reads LEB128 groups from `buf` at `off`, the groups read so far having filled `acc`
/// up to bit `shift`. Returns the outcome and the offset after the last byte read. Bits
/// beyond the 64th are dropped; a tenth byte with its high bit set is an overflow.
pub open spec fn scan_varuint(buf: Seq<u8>, off: int, shift: nat, acc: u64) -> (Result<u64, VarError>, int)
    decreases buf.len() - off,
{
    if off < 0 || off >= buf.len() {
        (Err(VarError::Eof), off)
    } else {
        let b = buf[off];
        let acc2 = acc | (((b & 0x7f) as u64) << (shift as u64));
        if b & 0x80 == 0 {
            (Ok(acc2), off + 1)
        } else if shift + 7 > 64 {
            (Err(VarError::Overflow), off + 1)
        } else {
            scan_varuint(buf, off + 1, shift + 7, acc2)
        }
    }
}

/// Zigzag mapping of signed to unsigned: 0, -1, 1, -2, ... become 0, 1, 2, 3, ...
pub open spec fn zigzag(v: i64) -> u64 {
    (if v >= 0 { 2 * (v as int) } else { -2 * (v as int) - 1 }) as u64
}

/// Inverse of [`zigzag`].
pub open spec fn unzigzag(z: u64) -> i64 {
    (if z % 2 == 0 { (z / 2) as int } else { -((z / 2) as int) - 1 }) as i64
}

/// Appends the LEB128 encoding of `val` to `buf`.
pub fn encode_varuint(val: u64, buf: &mut Vec<u8>)
    ensures
        final(buf)@ == old(buf)@ + varuint_bytes(val),
{
    let ghost v0 = val;
    let mut val = val;
    loop
        invariant_except_break
            buf@ + varuint_bytes(val) == old(buf)@ + varuint_bytes(v0),
        ensures
            buf@ == old(buf)@ + varuint_bytes(v0),
        decreases val,
    {
        let low = val & 0x7f;
        let mut byte = low as u8;
        let ghost before = val;
        proof {
            assert(val & 0x7f == val % 128) by (bit_vector);
            assert(val >> 7u64 == val / 128) by (bit_vector);
            assert((val & 0x7f) < 128) by (bit_vector);
        }
        val = val >> 7;
        if val != 0 {
            proof {
                assert(low < 128 ==> ((low as u8) | 0x80) == (low + 128) as u8) by (bit_vector);
                assert(before >= 128);
                assert(varuint_bytes(before) =~= seq![(before % 128 + 128) as u8] + varuint_bytes(val));
                assert(buf@.push(((low as u8) | 0x80)) + varuint_bytes(val) =~= buf@ + varuint_bytes(before));
            }
            byte = byte | 0x80;
            buf.push(byte);
        } else {
            proof {
                assert(before < 128);
                assert(buf@.push(byte) =~= buf@ + varuint_bytes(before));
            }
            buf.push(byte);
            break;
        }
    }
}

/// Reads a LEB128 varuint from `buf` at `*offset`, advancing `*offset` past the bytes
/// read, also when it fails.
pub fn decode_varuint(buf: &[u8], offset: &mut usize) -> (r: Result<u64, &'static str>)
    ensures
        ({
            let (res, off) = scan_varuint(buf@, *old(offset) as int, 0, 0);
            &&& *final(offset) == off
            &&& match res {
                Ok(v) => r == Ok::<u64, &'static str>(v),
                Err(e) => r matches Err(m) && m@ == var_error_text(e),
            }
        }),
{
    let ghost start = scan_varuint(buf@, *offset as int, 0, 0);
    let mut result: u64 = 0;
    let mut shift: u64 = 0;
    proof {
        reveal_strlit("LEB128 overflow");
        reveal_strlit("Unexpected EOF decoding varuint");
    }
    while *offset < buf.len()
        invariant
            shift <= 63,
            shift % 7 == 0,
            start == scan_varuint(buf@, *offset as int, shift as nat, result),
            start == scan_varuint(buf@, *old(offset) as int, 0, 0),
        decreases buf.len() - *offset,
    {
        let byte = buf[*offset];
        *offset = *offset + 1;
        result = result | (((byte & 0x7F) as u64) << shift);
        if (byte & 0x80) == 0 {
            return Ok(result);
        }
        shift = shift + 7;
        if shift > 64 {
            return Err("LEB128 overflow");
        }
    }
    Err("Unexpected EOF decoding varuint")
}

/// Appends the zigzag LEB128 encoding of `val` to `buf`.
pub fn encode_varint(val: i64, buf: &mut Vec<u8>)
    ensures
        final(buf)@ == old(buf)@ + varuint_bytes(zigzag(val)),
{
    let zz: u64 = if val >= 0 {
        (val as u64) << 1
    } else {
        !((val as u64) << 1)
    };
    proof {
        if val >= 0 {
            assert(val >= 0 ==> (val as u64) << 1 == (2 * val) as u64) by (bit_vector);
        } else {
            assert(val < 0 ==> !((val as u64) << 1) == (-2 * val - 1) as u64) by (bit_vector);
        }
    }
    encode_varuint(zz, buf);
}

/// Reads a zigzag LEB128 varint from `buf` at `*offset`, as [`decode_varuint`] does.
pub fn decode_varint(buf: &[u8], offset: &mut usize) -> (r: Result<i64, &'static str>)
    ensures
        ({
            let (res, off) = scan_varuint(buf@, *old(offset) as int, 0, 0);
            &&& *final(offset) == off
            &&& match res {
                Ok(z) => r == Ok::<i64, &'static str>(unzigzag(z)),
                Err(e) => r matches Err(m) && m@ == var_error_text(e),
            }
        }),
{
    let zz = match decode_varuint(buf, offset) {
        Ok(z) => z,
        Err(m) => {
            return Err(m);
        },
    };
    let val: i64 = if (zz & 1) == 0 {
        (zz >> 1) as i64
    } else {
        !((zz >> 1) as i64)
    };
    proof {
        assert((zz & 1 == 0) == (zz % 2 == 0)) by (bit_vector);
        assert(zz >> 1u64 == zz / 2) by (bit_vector);
        let h = zz >> 1u64;
        assert(h == zz >> 1u64 ==> h < 0x8000_0000_0000_0000u64) by (bit_vector);
        assert(h < 0x8000_0000_0000_0000u64 ==> !(h as i64) + (h as i64) == -1) by (bit_vector);
    }
    Ok(val)
}

proof fn lemma_scan_encoded(buf: Seq<u8>, off: int, s: u64, v: u64, w: u64, acc: u64)
    requires
        0 <= off,
        s <= 63,
        s % 7 == 0,
        w == v >> s,
        acc == v & (((1u64 << s) - 1) as u64),
        off + varuint_bytes(w).len() <= buf.len(),
        forall|i: int| 0 <= i < varuint_bytes(w).len() ==> buf[off + i] == #[trigger] varuint_bytes(w)[i],
    ensures
        scan_varuint(buf, off, s as nat, acc) == (Ok::<u64, VarError>(v), off + varuint_bytes(w).len()),
    decreases w,
{
    let b = buf[off];
    assert(b == varuint_bytes(w)[0]);
    if w < 128 {
        assert(b == w as u8);
        assert(w < 128 && w == v >> s && acc == v & (((1u64 << s) - 1) as u64) && s <= 63 ==> acc | ((((w as u8)
            & 0x7f) as u64) << s) == v) by (bit_vector);
        assert(w < 128 ==> (w as u8) & 0x80 == 0) by (bit_vector);
    } else {
        let low = w & 0x7f;
        assert(w & 0x7f == w % 128) by (bit_vector);
        assert(w >> 7u64 == w / 128) by (bit_vector);
        assert(b == (low + 128) as u8);
        assert(low == w & 0x7f ==> ((low + 128) as u8) & 0x80 != 0) by (bit_vector);
        assert(low == w & 0x7f ==> ((((low + 128) as u8) & 0x7f) as u64) == low) by (bit_vector);
        assert(w >= 128 && w == v >> s && s <= 63 ==> s <= 56) by (bit_vector);
        let s2 = (s + 7) as u64;
        let acc2 = acc | (low << s);
        assert(s <= 56 && s2 == s + 7 && low == w & 0x7f && w == v >> s && acc == v & (((1u64 << s) - 1) as u64)
            ==> acc | (low << s) == v & (((1u64 << s2) - 1) as u64)) by (bit_vector);
        assert(s <= 56 && s2 == s + 7 && w == v >> s ==> w >> 7u64 == v >> s2) by (bit_vector);
        let w2 = w / 128;
        assert(varuint_bytes(w) =~= seq![b] + varuint_bytes(w2));
        assert forall|i: int| 0 <= i < varuint_bytes(w2).len() implies buf[off + 1 + i] == #[trigger] varuint_bytes(
            w2,
        )[i] by {
            assert(varuint_bytes(w)[i + 1] == varuint_bytes(w2)[i]);
        }
        lemma_scan_encoded(buf, off + 1, s2, v, w2, acc2);
        assert((s as nat) + 7 == s2 as nat);
    }
}

/// Reading back a LEB128 encoding, wherever it stands in a buffer, gives the encoded value
/// and stops right after its last byte.
pub proof fn law_varuint_roundtrip(pre: Seq<u8>, v: u64, rest: Seq<u8>)
    ensures
        scan_varuint(pre + varuint_bytes(v) + rest, pre.len() as int, 0, 0) == (
            Ok::<u64, VarError>(v),
            (pre.len() + varuint_bytes(v).len()) as int,
        ),
{
    let buf = pre + varuint_bytes(v) + rest;
    assert(v == v >> 0u64 && 0 == v & (((1u64 << 0u64) - 1) as u64)) by (bit_vector);
    assert forall|i: int| 0 <= i < varuint_bytes(v).len() implies buf[pre.len() + i] == #[trigger] varuint_bytes(v)[i] by {}
    lemma_scan_encoded(buf, pre.len() as int, 0, v, v, 0);
}

/// Zigzag decoding undoes zigzag encoding on every `i64`.
pub proof fn law_zigzag_roundtrip(v: i64)
    ensures
        unzigzag(zigzag(v)) == v,
{
}

} // verus!

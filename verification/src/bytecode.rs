use vstd::prelude::*;
use crate::digest::{sha256, sha256_of};
use crate::partition::ShardingState;
use crate::signature::DecoratedSignature;
use crate::varint::{encode_varint, encode_varuint, varuint_bytes, zigzag};
use crate::witness::{collective_code, WitnessOp};

verus! {

/// Frame magic of a witness bytecode package ("P2CWITv2").
pub const MAGIC_V2: [u8; 8] = [0x50, 0x32, 0x43, 0x57, 0x49, 0x54, 0x76, 0x32];

/// Bytecode format version 1.2.
pub const VERSION_V1_2: u16 = 0x0102;

pub const TRAILER_BYTE_0: u8 = 0xAA;

pub const TRAILER_BYTE_1: u8 = 0x55;

/// Kernel lineage record carried in a package.
#[derive(Debug, Clone)]
pub struct LineageEntry {
    pub kernel_id: u64,
    pub source_lineage_hash: [u8; 16],
}

/// A framed witness program.
#[derive(Debug)]
pub struct WitnessBytecodePackage {
    pub version: u16,
    pub flags: u16,
    pub lineages: Vec<LineageEntry>,
    pub instructions: Vec<WitnessOp>,
}

pub open spec fn be16(x: u16) -> Seq<u8> {
    seq![(x / 256) as u8, (x % 256) as u8]
}

pub open spec fn be32(x: u32) -> Seq<u8> {
    seq![(x / 0x100_0000) as u8, (x / 0x1_0000 % 256) as u8, (x / 256 % 256) as u8, (x % 256) as u8]
}

pub open spec fn state_bytes(st: ShardingState) -> Seq<u8> {
    match st {
        ShardingState::Unconstrained => seq![0u8],
        ShardingState::Replicated => seq![1u8],
        ShardingState::Sharded(d) => seq![2u8] + varuint_bytes(d as u64),
    }
}

pub open spec fn bindings_bytes(s: Seq<(u32, ShardingState)>) -> Seq<u8>
    decreases s.len(),
{
    if s.len() == 0 {
        Seq::empty()
    } else {
        bindings_bytes(s.drop_last()) + varuint_bytes(s.last().0 as u64) + state_bytes(s.last().1)
    }
}

pub open spec fn exps_bytes(s: Seq<(u64, i64)>) -> Seq<u8>
    decreases s.len(),
{
    if s.len() == 0 {
        Seq::empty()
    } else {
        exps_bytes(s.drop_last()) + varuint_bytes(s.last().0) + varuint_bytes(zigzag(s.last().1))
    }
}

/// Encoding of one decorated signature: its atom/exponent pairs, then its mesh bindings in
/// increasing mesh-axis order.
pub open spec fn sig_bytes(d: DecoratedSignature) -> Seq<u8> {
    varuint_bytes(d.atom_exponents@.len() as u64) + exps_bytes(d.atom_exponents@) + varuint_bytes(
        d.partition.mesh_bindings@.len() as u64,
    ) + bindings_bytes(d.partition.mesh_bindings@)
}

pub open spec fn sigs_bytes(s: Seq<DecoratedSignature>) -> Seq<u8>
    decreases s.len(),
{
    if s.len() == 0 {
        Seq::empty()
    } else {
        sigs_bytes(s.drop_last()) + sig_bytes(s.last())
    }
}

pub open spec fn u32s_bytes(s: Seq<u32>) -> Seq<u8>
    decreases s.len(),
{
    if s.len() == 0 {
        Seq::empty()
    } else {
        u32s_bytes(s.drop_last()) + varuint_bytes(s.last() as u64)
    }
}

pub open spec fn pairs_bytes(s: Seq<(u32, u32)>) -> Seq<u8>
    decreases s.len(),
{
    if s.len() == 0 {
        Seq::empty()
    } else {
        pairs_bytes(s.drop_last()) + varuint_bytes(s.last().0 as u64) + varuint_bytes(s.last().1 as u64)
    }
}

/// Encoding of one witness operation: an opcode byte, then its operands.
pub open spec fn op_bytes(op: WitnessOp) -> Seq<u8>
    decreases op,
{
    match op {
        WitnessOp::Permute { rank, perm } => seq![1u8] + varuint_bytes(rank as u64) + u32s_bytes(perm@),
        WitnessOp::Merge { src_axes, target_pos } => seq![2u8] + varuint_bytes(src_axes@.len() as u64)
            + u32s_bytes(src_axes@) + varuint_bytes(target_pos as u64),
        WitnessOp::Split { src_axis, parts } => seq![3u8] + varuint_bytes(src_axis as u64) + varuint_bytes(
            parts@.len() as u64,
        ) + sigs_bytes(parts@),
        WitnessOp::Contract { left, right } => seq![4u8] + varuint_bytes(left as u64) + varuint_bytes(right as u64),
        WitnessOp::MultiContract { pairs } => seq![5u8] + varuint_bytes(pairs@.len() as u64) + pairs_bytes(pairs@),
        WitnessOp::Collective { kind, mesh_axis } => seq![6u8, collective_code(kind)] + varuint_bytes(
            mesh_axis as u64,
        ),
        WitnessOp::Sequence { steps } => seq![7u8] + varuint_bytes(steps@.len() as u64) + ops_bytes(steps@),
    }
}

pub open spec fn ops_bytes(s: Seq<WitnessOp>) -> Seq<u8>
    decreases s,
{
    if s.len() == 0 {
        Seq::empty()
    } else {
        ops_bytes(s.drop_last()) + op_bytes(s.last())
    }
}

pub open spec fn lineages_bytes(s: Seq<LineageEntry>) -> Seq<u8>
    decreases s.len(),
{
    if s.len() == 0 {
        Seq::empty()
    } else {
        lineages_bytes(s.drop_last()) + varuint_bytes(s.last().kernel_id) + s.last().source_lineage_hash@
    }
}

/// The package body: lineage records, then instructions, each list preceded by its length.
pub open spec fn body_bytes(p: WitnessBytecodePackage) -> Seq<u8> {
    varuint_bytes(p.lineages@.len() as u64) + lineages_bytes(p.lineages@) + varuint_bytes(
        p.instructions@.len() as u64,
    ) + ops_bytes(p.instructions@)
}

/// The framed package: magic, version and flags (big-endian), body length (big-endian,
/// modulo 2^32), the first 16 bytes of the body's SHA-256 digest, the body, the trailer.
pub open spec fn package_bytes(p: WitnessBytecodePackage) -> Seq<u8> {
    let body = body_bytes(p);
    MAGIC_V2@ + be16(p.version) + be16(p.flags) + be32(body.len() as u32) + sha256_of(body).take(16) + body
        + seq![TRAILER_BYTE_0, TRAILER_BYTE_1]
}

fn push_be16(buf: &mut Vec<u8>, x: u16)
    ensures
        final(buf)@ == old(buf)@ + be16(x),
{
    proof {
        assert(x >> 8u16 == x / 256) by (bit_vector);
        assert(x & 0xff == x % 256) by (bit_vector);
    }
    buf.push((x >> 8) as u8);
    buf.push((x & 0xff) as u8);
    assert(buf@ =~= old(buf)@ + be16(x));
}

fn push_be32(buf: &mut Vec<u8>, x: u32)
    ensures
        final(buf)@ == old(buf)@ + be32(x),
{
    proof {
        assert(x >> 24u32 == x / 0x100_0000) by (bit_vector);
        assert((x >> 16u32) & 0xff == x / 0x1_0000 % 256) by (bit_vector);
        assert((x >> 8u32) & 0xff == x / 256 % 256) by (bit_vector);
        assert(x & 0xff == x % 256) by (bit_vector);
    }
    buf.push((x >> 24) as u8);
    buf.push(((x >> 16) & 0xff) as u8);
    buf.push(((x >> 8) & 0xff) as u8);
    buf.push((x & 0xff) as u8);
    assert(buf@ =~= old(buf)@ + be32(x));
}

fn push_state(buf: &mut Vec<u8>, st: ShardingState)
    ensures
        final(buf)@ == old(buf)@ + state_bytes(st),
{
    match st {
        ShardingState::Unconstrained => {
            buf.push(0x00);
            assert(buf@ =~= old(buf)@ + state_bytes(st));
        },
        ShardingState::Replicated => {
            buf.push(0x01);
            assert(buf@ =~= old(buf)@ + state_bytes(st));
        },
        ShardingState::Sharded(dim) => {
            buf.push(0x02);
            encode_varuint(dim as u64, buf);
            assert(buf@ =~= old(buf)@ + state_bytes(st));
        },
    }
}

fn push_u32s(buf: &mut Vec<u8>, v: &Vec<u32>)
    ensures
        final(buf)@ == old(buf)@ + u32s_bytes(v@),
{
    let mut i: usize = 0;
    while i < v.len()
        invariant
            0 <= i <= v.len(),
            buf@ == old(buf)@ + u32s_bytes(v@.take(i as int)),
        decreases v.len() - i,
    {
        proof {
            assert(v@.take(i + 1).drop_last() =~= v@.take(i as int));
        }
        encode_varuint(v[i] as u64, buf);
        i = i + 1;
    }
    assert(v@.take(v.len() as int) =~= v@);
}

fn push_pairs(buf: &mut Vec<u8>, v: &Vec<(u32, u32)>)
    ensures
        final(buf)@ == old(buf)@ + pairs_bytes(v@),
{
    let mut i: usize = 0;
    while i < v.len()
        invariant
            0 <= i <= v.len(),
            buf@ == old(buf)@ + pairs_bytes(v@.take(i as int)),
        decreases v.len() - i,
    {
        proof {
            assert(v@.take(i + 1).drop_last() =~= v@.take(i as int));
        }
        let (l, r) = v[i];
        encode_varuint(l as u64, buf);
        encode_varuint(r as u64, buf);
        i = i + 1;
    }
    assert(v@.take(v.len() as int) =~= v@);
}

fn push_sig(buf: &mut Vec<u8>, d: &DecoratedSignature)
    ensures
        final(buf)@ == old(buf)@ + sig_bytes(*d),
{
    let exps = &d.atom_exponents;
    encode_varuint(exps.len() as u64, buf);
    let ghost mid = buf@;
    let mut i: usize = 0;
    while i < exps.len()
        invariant
            0 <= i <= exps.len(),
            buf@ == mid + exps_bytes(exps@.take(i as int)),
        decreases exps.len() - i,
    {
        proof {
            assert(exps@.take(i + 1).drop_last() =~= exps@.take(i as int));
        }
        let (atom, exp) = exps[i];
        encode_varuint(atom, buf);
        encode_varint(exp, buf);
        i = i + 1;
    }
    assert(exps@.take(exps.len() as int) =~= exps@);
    let binds = &d.partition.mesh_bindings;
    encode_varuint(binds.len() as u64, buf);
    let ghost mid2 = buf@;
    let mut j: usize = 0;
    while j < binds.len()
        invariant
            0 <= j <= binds.len(),
            buf@ == mid2 + bindings_bytes(binds@.take(j as int)),
        decreases binds.len() - j,
    {
        proof {
            assert(binds@.take(j + 1).drop_last() =~= binds@.take(j as int));
        }
        let (axis, st) = binds[j];
        encode_varuint(axis as u64, buf);
        push_state(buf, st);
        j = j + 1;
    }
    assert(binds@.take(binds.len() as int) =~= binds@);
    assert(buf@ =~= old(buf)@ + sig_bytes(*d));
}

fn push_sigs(buf: &mut Vec<u8>, v: &Vec<DecoratedSignature>)
    ensures
        final(buf)@ == old(buf)@ + sigs_bytes(v@),
{
    let mut i: usize = 0;
    while i < v.len()
        invariant
            0 <= i <= v.len(),
            buf@ == old(buf)@ + sigs_bytes(v@.take(i as int)),
        decreases v.len() - i,
    {
        proof {
            assert(v@.take(i + 1).drop_last() =~= v@.take(i as int));
        }
        push_sig(buf, &v[i]);
        i = i + 1;
    }
    assert(v@.take(v.len() as int) =~= v@);
}

impl WitnessBytecodePackage {
    /// Frames the package: magic, version, flags, body length, the first 16 bytes of the
    /// body's SHA-256 digest, the body, and the trailer.
    pub fn serialize(&self) -> (out: Vec<u8>)
        ensures
            out@ == package_bytes(*self),
    {
        let mut body: Vec<u8> = Vec::new();
        encode_varuint(self.lineages.len() as u64, &mut body);
        let ghost b1 = body@;
        let mut i: usize = 0;
        while i < self.lineages.len()
            invariant
                0 <= i <= self.lineages.len(),
                body@ == b1 + lineages_bytes(self.lineages@.take(i as int)),
            decreases self.lineages.len() - i,
        {
            proof {
                assert(self.lineages@.take(i + 1).drop_last() =~= self.lineages@.take(i as int));
            }
            let l = &self.lineages[i];
            encode_varuint(l.kernel_id, &mut body);
            let ghost b2 = body@;
            let mut q: usize = 0;
            while q < 16
                invariant
                    0 <= q <= 16,
                    body@ == b2 + l.source_lineage_hash@.take(q as int),
                decreases 16 - q,
            {
                body.push(l.source_lineage_hash[q]);
                proof {
                    assert(l.source_lineage_hash@.take(q + 1) =~= l.source_lineage_hash@.take(q as int).push(
                        l.source_lineage_hash@[q as int],
                    ));
                }
                q = q + 1;
            }
            assert(l.source_lineage_hash@.take(16) =~= l.source_lineage_hash@);
            i = i + 1;
        }
        assert(self.lineages@.take(self.lineages.len() as int) =~= self.lineages@);
        encode_varuint(self.instructions.len() as u64, &mut body);
        let ghost b3 = body@;
        let mut k: usize = 0;
        while k < self.instructions.len()
            invariant
                0 <= k <= self.instructions.len(),
                body@ == b3 + ops_bytes(self.instructions@.take(k as int)),
            decreases self.instructions.len() - k,
        {
            proof {
                assert(self.instructions@.take(k + 1).drop_last() =~= self.instructions@.take(k as int));
            }
            Self::encode_op(&self.instructions[k], &mut body);
            k = k + 1;
        }
        assert(self.instructions@.take(self.instructions.len() as int) =~= self.instructions@);
        assert(body@ =~= body_bytes(*self));
        let digest = sha256(body.as_slice());
        let mut package: Vec<u8> = Vec::new();
        let mut m: usize = 0;
        while m < 8
            invariant
                0 <= m <= 8,
                package@ == MAGIC_V2@.take(m as int),
            decreases 8 - m,
        {
            package.push(MAGIC_V2[m]);
            proof {
                assert(MAGIC_V2@.take(m + 1) =~= MAGIC_V2@.take(m as int).push(MAGIC_V2@[m as int]));
            }
            m = m + 1;
        }
        assert(MAGIC_V2@.take(8) =~= MAGIC_V2@);
        push_be16(&mut package, self.version);
        push_be16(&mut package, self.flags);
        push_be32(&mut package, body.len() as u32);
        let ghost p1 = package@;
        let mut h: usize = 0;
        while h < 16
            invariant
                0 <= h <= 16,
                digest@.len() == 32,
                package@ == p1 + digest@.take(h as int),
            decreases 16 - h,
        {
            package.push(digest[h]);
            proof {
                assert(digest@.take(h + 1) =~= digest@.take(h as int).push(digest@[h as int]));
            }
            h = h + 1;
        }
        let ghost p2 = package@;
        let mut b: usize = 0;
        while b < body.len()
            invariant
                0 <= b <= body.len(),
                package@ == p2 + body@.take(b as int),
            decreases body.len() - b,
        {
            package.push(body[b]);
            proof {
                assert(body@.take(b + 1) =~= body@.take(b as int).push(body@[b as int]));
            }
            b = b + 1;
        }
        assert(body@.take(body.len() as int) =~= body@);
        package.push(TRAILER_BYTE_0);
        package.push(TRAILER_BYTE_1);
        assert(package@ =~= package_bytes(*self));
        package
    }

    fn encode_op(op: &WitnessOp, buf: &mut Vec<u8>)
        ensures
            final(buf)@ == old(buf)@ + op_bytes(*op),
        decreases op,
    {
        match op {
            WitnessOp::Permute { rank, perm } => {
                buf.push(0x01);
                encode_varuint(*rank as u64, buf);
                push_u32s(buf, perm);
            },
            WitnessOp::Merge { src_axes, target_pos } => {
                buf.push(0x02);
                encode_varuint(src_axes.len() as u64, buf);
                push_u32s(buf, src_axes);
                encode_varuint(*target_pos as u64, buf);
            },
            WitnessOp::Split { src_axis, parts } => {
                buf.push(0x03);
                encode_varuint(*src_axis as u64, buf);
                encode_varuint(parts.len() as u64, buf);
                push_sigs(buf, parts);
            },
            WitnessOp::Contract { left, right } => {
                buf.push(0x04);
                encode_varuint(*left as u64, buf);
                encode_varuint(*right as u64, buf);
            },
            WitnessOp::MultiContract { pairs } => {
                buf.push(0x05);
                encode_varuint(pairs.len() as u64, buf);
                push_pairs(buf, pairs);
            },
            WitnessOp::Collective { kind, mesh_axis } => {
                buf.push(0x06);
                buf.push(kind.code());
                encode_varuint(*mesh_axis as u64, buf);
            },
            WitnessOp::Sequence { steps } => {
                buf.push(0x07);
                encode_varuint(steps.len() as u64, buf);
                let ghost b0 = buf@;
                let mut i: usize = 0;
                while i < steps.len()
                    invariant
                        0 <= i <= steps.len(),
                        *op == (WitnessOp::Sequence { steps: *steps }),
                        buf@ == b0 + ops_bytes(steps@.take(i as int)),
                    decreases steps.len() - i,
                {
                    proof {
                        assert(steps@.take(i + 1).drop_last() =~= steps@.take(i as int));
                        assert(*op == (WitnessOp::Sequence { steps: *steps }));
                        assert(op->steps == *steps);
                        assert(decreases_to!(*op => op->steps));
                        assert(decreases_to!(op->steps => op->steps@));
                        assert(decreases_to!(op->steps@ => op->steps@[i as int]));
                    }
                    Self::encode_op(&steps[i], buf);
                    i = i + 1;
                }
                assert(steps@.take(steps.len() as int) =~= steps@);
            },
        }
        assert(buf@ =~= old(buf)@ + op_bytes(*op));
    }
}

} // verus!

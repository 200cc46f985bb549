//! The instruction set of recursion programs.
//!
//! A program works on a flat memory of field elements. Every instruction names
//! the addresses it reads and the addresses it writes, and declares for each
//! value it writes the multiplicity of that value: how often later instructions
//! will read it. The helpers below build instructions from plain integers, each
//! of which stands for the field element with that canonical representative.

use crate::field::{ExtensionElement, KoalaBear, D, KOALA_BEAR_PRIME};
use vstd::prelude::*;

verus! {

/// The width of the Poseidon2 permutation.
pub const WIDTH: usize = 16;

/// A location in the memory of a program.
#[derive(Debug, Clone, Copy, PartialEq, Eq, Hash)]
pub struct Address<F>(pub F);

/// A block of memory: one element of the extension field, or one of the base
/// field padded with zeros.
#[derive(Debug, Clone, Copy, PartialEq, Eq, Hash)]
pub struct Block<T>(pub [T; D]);

/// The operations of the base field.
#[derive(Debug, Clone, Copy, PartialEq, Eq, Structural, Hash)]
pub enum BaseAluOpcode {
    AddF,
    SubF,
    MulF,
    DivF,
}

/// The operations of the extension field.
#[derive(Debug, Clone, Copy, PartialEq, Eq, Structural, Hash)]
pub enum ExtAluOpcode {
    AddE,
    SubE,
    MulE,
    DivE,
}

/// Whether a memory instruction reads or writes.
#[derive(Debug, Clone, Copy, PartialEq, Eq, Structural, Hash)]
pub enum MemAccessKind {
    Read,
    Write,
}

/// The operands of an arithmetic instruction of the base field.
#[derive(Debug, Clone, Copy)]
pub struct BaseAluIo<V> {
    pub out: V,
    pub in1: V,
    pub in2: V,
}

/// An arithmetic instruction of the base field.
#[derive(Debug, Clone, Copy)]
pub struct BaseAluInstr<F> {
    pub opcode: BaseAluOpcode,
    pub mult: F,
    pub addrs: BaseAluIo<Address<F>>,
}

/// The operands of an arithmetic instruction of the extension field.
#[derive(Debug, Clone, Copy)]
pub struct ExtAluIo<V> {
    pub out: V,
    pub in1: V,
    pub in2: V,
}

/// An arithmetic instruction of the extension field.
#[derive(Debug, Clone, Copy)]
pub struct ExtAluInstr<F> {
    pub opcode: ExtAluOpcode,
    pub mult: F,
    pub addrs: ExtAluIo<Address<F>>,
}

/// The operand of a memory instruction.
#[derive(Debug, Clone, Copy)]
pub struct MemIo<V> {
    pub inner: V,
}

/// A direct access to memory.
#[derive(Debug, Clone, Copy)]
pub struct MemInstr<F> {
    pub addrs: MemIo<Address<F>>,
    pub vals: MemIo<Block<F>>,
    pub mult: F,
    pub kind: MemAccessKind,
}

/// The operands of a Poseidon2 permutation.
#[derive(Debug, Clone, Copy)]
pub struct Poseidon2Io<V> {
    pub input: [V; WIDTH],
    pub output: [V; WIDTH],
}

/// One invocation of the Poseidon2 permutation.
#[derive(Debug, Clone, Copy)]
pub struct Poseidon2Instr<F> {
    pub addrs: Poseidon2Io<Address<F>>,
    pub mults: [F; WIDTH],
}

/// The operands of a select.
#[derive(Debug, Clone, Copy)]
pub struct SelectIo<V> {
    pub bit: V,
    pub out1: V,
    pub out2: V,
    pub in1: V,
    pub in2: V,
}

/// A branchless select: the first output is the first input where the bit is
/// set and the second input otherwise, and the second output is the other one.
#[derive(Debug, Clone, Copy)]
pub struct SelectInstr<F> {
    pub addrs: SelectIo<Address<F>>,
    pub mult1: F,
    pub mult2: F,
}

/// The operands of an exponentiation by a bit-reversed exponent.
#[derive(Debug, Clone)]
pub struct ExpReverseBitsIo<V> {
    pub base: V,
    pub exp: Vec<V>,
    pub result: V,
}

/// An exponentiation by an exponent given as its bits in reverse.
#[derive(Debug, Clone)]
pub struct ExpReverseBitsInstr<F> {
    pub addrs: ExpReverseBitsIo<Address<F>>,
    pub mult: F,
}

/// A decomposition of a value into bits, supplied from outside at execution.
#[derive(Clone, Debug)]
pub struct HintBitsInstr<F> {
    /// Addresses and multiplicities of the output bits.
    pub output_addrs_mults: Vec<(Address<F>, F)>,
    /// The value to decompose.
    pub input_addr: Address<F>,
}

/// The kind of field element that a print instruction shows.
#[derive(Clone, Copy, Debug, PartialEq, Eq, Structural, Hash)]
pub enum FieldEltType {
    Base,
    Extension,
}

/// A diagnostic print of the value at an address.
#[derive(Clone, Debug)]
pub struct PrintInstr<F> {
    pub field_elt_type: FieldEltType,
    pub addr: Address<F>,
}

/// The sum of two curve points, supplied from outside at execution.
#[derive(Clone, Debug)]
pub struct HintAddCurveInstr<F> {
    pub output_x_addrs_mults: Vec<(Address<F>, F)>,
    pub output_y_addrs_mults: Vec<(Address<F>, F)>,
    pub input1_x_addrs: Vec<Address<F>>,
    pub input1_y_addrs: Vec<Address<F>>,
    pub input2_x_addrs: Vec<Address<F>>,
    pub input2_y_addrs: Vec<Address<F>>,
}

/// Values supplied from outside at execution.
#[derive(Clone, Debug)]
pub struct HintInstr<F> {
    /// Addresses and multiplicities of the output elements.
    pub output_addrs_mults: Vec<(Address<F>, F)>,
}

/// The coefficients of an element of the extension field, supplied from outside
/// at execution.
#[derive(Clone, Debug)]
pub struct HintExt2FeltsInstr<F> {
    /// Addresses and multiplicities of the output elements.
    pub output_addrs_mults: [(Address<F>, F); D],
    /// The value to decompose.
    pub input_addr: Address<F>,
}

/// The single operand of the base field of a FRI fold.
#[derive(Debug, Clone, Copy)]
pub struct FriFoldBaseIo<V> {
    pub x: V,
}

/// The single operands of the extension field of a FRI fold.
#[derive(Debug, Clone, Copy)]
pub struct FriFoldExtSingleIo<V> {
    pub z: V,
    pub alpha: V,
}

/// The vector operands of a FRI fold.
#[derive(Debug, Clone)]
pub struct FriFoldExtVecIo<V> {
    pub mat_opening: V,
    pub ps_at_z: V,
    pub alpha_pow_input: V,
    pub ro_input: V,
    pub alpha_pow_output: V,
    pub ro_output: V,
}

/// A fold of committed polynomial openings into running accumulators.
#[derive(Debug, Clone)]
pub struct FriFoldInstr<F> {
    pub base_single_addrs: FriFoldBaseIo<Address<F>>,
    pub ext_single_addrs: FriFoldExtSingleIo<Address<F>>,
    pub ext_vec_addrs: FriFoldExtVecIo<Vec<Address<F>>>,
    pub alpha_pow_mults: Vec<F>,
    pub ro_mults: Vec<F>,
}

/// The vector operand of the base field of a batched FRI fold.
#[derive(Debug, Clone)]
pub struct BatchFRIBaseVecIo<V> {
    pub p_at_x: V,
}

/// The single operand of the extension field of a batched FRI fold.
#[derive(Debug, Clone, Copy)]
pub struct BatchFRIExtSingleIo<V> {
    pub acc: V,
}

/// The vector operands of the extension field of a batched FRI fold.
#[derive(Debug, Clone)]
pub struct BatchFRIExtVecIo<V> {
    pub p_at_z: V,
    pub alpha_pow: V,
}

/// A batched fold of polynomial openings into one accumulator.
#[derive(Debug, Clone)]
pub struct BatchFRIInstr<F> {
    pub base_vec_addrs: BatchFRIBaseVecIo<Vec<Address<F>>>,
    pub ext_single_addrs: BatchFRIExtSingleIo<Address<F>>,
    pub ext_vec_addrs: BatchFRIExtVecIo<Vec<Address<F>>>,
    pub acc_mult: F,
}

/// The public values of a recursive verifier, by position.
#[derive(Debug, Clone)]
pub struct RecursionPublicValues<T> {
    pub elements: Vec<T>,
}

/// The binding of a program's public values to addresses.
#[derive(Debug, Clone)]
pub struct CommitPublicValuesInstr<F> {
    pub pv_addrs: RecursionPublicValues<Address<F>>,
}

/// An instruction of a recursion program.
#[derive(Debug, Clone)]
pub enum Instruction<F> {
    BaseAlu(BaseAluInstr<F>),
    ExtAlu(ExtAluInstr<F>),
    Mem(MemInstr<F>),
    Poseidon2(Box<Poseidon2Instr<F>>),
    Select(SelectInstr<F>),
    ExpReverseBitsLen(ExpReverseBitsInstr<F>),
    HintBits(HintBitsInstr<F>),
    HintAddCurve(HintAddCurveInstr<F>),
    FriFold(Box<FriFoldInstr<F>>),
    BatchFRI(Box<BatchFRIInstr<F>>),
    Print(PrintInstr<F>),
    HintExt2Felts(HintExt2FeltsInstr<F>),
    CommitPublicValues(Box<CommitPublicValuesInstr<F>>),
    Hint(HintInstr<F>),
}

/// Every integer is the canonical representative of a field element.
pub open spec fn all_canonical(values: Seq<u32>) -> bool {
    forall|i: int| 0 <= i < values.len() ==> #[trigger] values[i] < KOALA_BEAR_PRIME
}

/// The canonical representatives of a sequence of field elements.
pub open spec fn representatives(elements: Seq<KoalaBear>) -> Seq<u32> {
    Seq::new(elements.len(), |i: int| elements[i]@)
}

/// The canonical representatives of a sequence of addresses.
pub open spec fn locations(addresses: Seq<Address<KoalaBear>>) -> Seq<u32> {
    Seq::new(addresses.len(), |i: int| addresses[i].0@)
}

/// The address with the given canonical representative.
fn address(n: u32) -> (a: Address<KoalaBear>)
    requires
        n < KOALA_BEAR_PRIME,
    ensures
        a.0@ == n,
{
    Address(KoalaBear::from_canonical_u32(n))
}

/// The addresses with the given canonical representatives.
fn addresses(values: &Vec<u32>) -> (r: Vec<Address<KoalaBear>>)
    requires
        all_canonical(values@),
    ensures
        locations(r@) == values@,
{
    let mut r: Vec<Address<KoalaBear>> = Vec::new();
    let mut i: usize = 0;
    while i < values.len()
        invariant
            all_canonical(values@),
            i <= values@.len(),
            r@.len() == i,
            forall|j: int| 0 <= j < i ==> (#[trigger] r@[j]).0@ == values@[j],
        decreases values@.len() - i,
    {
        r.push(address(values[i]));
        i = i + 1;
    }
    assert(locations(r@) =~= values@);
    r
}

/// The field elements with the given canonical representatives.
fn elements(values: &Vec<u32>) -> (r: Vec<KoalaBear>)
    requires
        all_canonical(values@),
    ensures
        representatives(r@) == values@,
{
    let mut r: Vec<KoalaBear> = Vec::new();
    let mut i: usize = 0;
    while i < values.len()
        invariant
            all_canonical(values@),
            i <= values@.len(),
            r@.len() == i,
            forall|j: int| 0 <= j < i ==> (#[trigger] r@[j])@ == values@[j],
        decreases values@.len() - i,
    {
        r.push(KoalaBear::from_canonical_u32(values[i]));
        i = i + 1;
    }
    assert(representatives(r@) =~= values@);
    r
}

/// An arithmetic instruction of the base field: `out = in1 opcode in2`, the
/// result being read `mult` times.
pub fn base_alu(opcode: BaseAluOpcode, mult: u32, out: u32, in1: u32, in2: u32) -> (r: Instruction<
    KoalaBear,
>)
    requires
        mult < KOALA_BEAR_PRIME,
        out < KOALA_BEAR_PRIME,
        in1 < KOALA_BEAR_PRIME,
        in2 < KOALA_BEAR_PRIME,
    ensures
        r matches Instruction::BaseAlu(i) && i.opcode == opcode && i.mult@ == mult
            && i.addrs.out.0@ == out && i.addrs.in1.0@ == in1 && i.addrs.in2.0@ == in2,
{
    Instruction::BaseAlu(
        BaseAluInstr {
            opcode,
            mult: KoalaBear::from_canonical_u32(mult),
            addrs: BaseAluIo { out: address(out), in1: address(in1), in2: address(in2) },
        },
    )
}

/// An arithmetic instruction of the extension field: `out = in1 opcode in2`,
/// the result being read `mult` times.
pub fn ext_alu(opcode: ExtAluOpcode, mult: u32, out: u32, in1: u32, in2: u32) -> (r: Instruction<
    KoalaBear,
>)
    requires
        mult < KOALA_BEAR_PRIME,
        out < KOALA_BEAR_PRIME,
        in1 < KOALA_BEAR_PRIME,
        in2 < KOALA_BEAR_PRIME,
    ensures
        r matches Instruction::ExtAlu(i) && i.opcode == opcode && i.mult@ == mult
            && i.addrs.out.0@ == out && i.addrs.in1.0@ == in1 && i.addrs.in2.0@ == in2,
{
    Instruction::ExtAlu(
        ExtAluInstr {
            opcode,
            mult: KoalaBear::from_canonical_u32(mult),
            addrs: ExtAluIo { out: address(out), in1: address(in1), in2: address(in2) },
        },
    )
}

/// The block that holds `val` followed by zeros.
pub open spec fn block_of_element(val: KoalaBear) -> Seq<u32> {
    seq![val@, 0u32, 0u32, 0u32]
}

/// A memory access of a value of the base field given by its canonical
/// representative.
pub fn mem(kind: MemAccessKind, mult: u32, addr: u32, val: u32) -> (r: Instruction<KoalaBear>)
    requires
        mult < KOALA_BEAR_PRIME,
        addr < KOALA_BEAR_PRIME,
        val < KOALA_BEAR_PRIME,
    ensures
        r matches Instruction::Mem(i) && i.kind == kind && i.mult@ == mult && i.addrs.inner.0@
            == addr && representatives(i.vals.inner.0@) == seq![val, 0u32, 0u32, 0u32],
{
    mem_single(kind, mult, addr, KoalaBear::from_canonical_u32(val))
}

/// A memory access of a value of the base field.
pub fn mem_single(kind: MemAccessKind, mult: u32, addr: u32, val: KoalaBear) -> (r: Instruction<
    KoalaBear,
>)
    requires
        mult < KOALA_BEAR_PRIME,
        addr < KOALA_BEAR_PRIME,
    ensures
        r matches Instruction::Mem(i) && i.kind == kind && i.mult@ == mult && i.addrs.inner.0@
            == addr && representatives(i.vals.inner.0@) == block_of_element(val),
{
    let zero = KoalaBear::zero();
    let r = mem_block(kind, mult, addr, Block([val, zero, zero, zero]));
    proof {
        let i = r->Mem_0;
        assert(representatives(i.vals.inner.0@) =~= block_of_element(val));
    }
    r
}

/// A memory access of a value of the extension field.
pub fn mem_ext(kind: MemAccessKind, mult: u32, addr: u32, val: ExtensionElement) -> (r:
    Instruction<KoalaBear>)
    requires
        mult < KOALA_BEAR_PRIME,
        addr < KOALA_BEAR_PRIME,
    ensures
        r matches Instruction::Mem(i) && i.kind == kind && i.mult@ == mult && i.addrs.inner.0@
            == addr && i.vals.inner.0 == val,
{
    mem_block(kind, mult, addr, Block(val))
}

/// A memory access of a block: a write defines the value at the address, to be
/// read `mult` times; a read consumes one of those.
pub fn mem_block(kind: MemAccessKind, mult: u32, addr: u32, val: Block<KoalaBear>) -> (r:
    Instruction<KoalaBear>)
    requires
        mult < KOALA_BEAR_PRIME,
        addr < KOALA_BEAR_PRIME,
    ensures
        r matches Instruction::Mem(i) && i.kind == kind && i.mult@ == mult && i.addrs.inner.0@
            == addr && i.vals.inner == val,
{
    Instruction::Mem(
        MemInstr {
            addrs: MemIo { inner: address(addr) },
            vals: MemIo { inner: val },
            mult: KoalaBear::from_canonical_u32(mult),
            kind,
        },
    )
}

/// The field elements with the given canonical representatives, one for each
/// lane of the permutation.
fn element_lanes(values: &[u32; WIDTH]) -> (r: [KoalaBear; WIDTH])
    requires
        all_canonical(values@),
    ensures
        representatives(r@) == values@,
{
    let mut r = [KoalaBear::zero(); WIDTH];
    let mut i: usize = 0;
    while i < WIDTH
        invariant
            all_canonical(values@),
            i <= WIDTH,
            forall|j: int| 0 <= j < i ==> (#[trigger] r@[j])@ == values@[j],
        decreases WIDTH - i,
    {
        r[i] = KoalaBear::from_canonical_u32(values[i]);
        i = i + 1;
    }
    assert(representatives(r@) =~= values@);
    r
}

/// The addresses with the given canonical representatives, one for each lane of
/// the permutation.
fn address_lanes(values: &[u32; WIDTH]) -> (r: [Address<KoalaBear>; WIDTH])
    requires
        all_canonical(values@),
    ensures
        locations(r@) == values@,
{
    let mut r = [Address(KoalaBear::zero()); WIDTH];
    let mut i: usize = 0;
    while i < WIDTH
        invariant
            all_canonical(values@),
            i <= WIDTH,
            forall|j: int| 0 <= j < i ==> (#[trigger] r@[j]).0@ == values@[j],
        decreases WIDTH - i,
    {
        r[i] = address(values[i]);
        i = i + 1;
    }
    assert(locations(r@) =~= values@);
    r
}

/// One invocation of the Poseidon2 permutation: the state at the addresses
/// `input` is permuted into the addresses `output`, lane `k` of the result being
/// read `mults[k]` times.
pub fn poseidon2(mults: [u32; WIDTH], output: [u32; WIDTH], input: [u32; WIDTH]) -> (r:
    Instruction<KoalaBear>)
    requires
        all_canonical(mults@),
        all_canonical(output@),
        all_canonical(input@),
    ensures
        r matches Instruction::Poseidon2(i) && representatives(i.mults@) == mults@ && locations(
            i.addrs.output@,
        ) == output@ && locations(i.addrs.input@) == input@,
{
    Instruction::Poseidon2(
        Box::new(
            Poseidon2Instr {
                mults: element_lanes(&mults),
                addrs: Poseidon2Io {
                    output: address_lanes(&output),
                    input: address_lanes(&input),
                },
            },
        ),
    )
}

/// A select on the bit at `bit`: `out1` receives `in1` where the bit is set and
/// `in2` otherwise, `out2` the other one; the outputs are read `mult1` and
/// `mult2` times.
pub fn select(mult1: u32, mult2: u32, bit: u32, out1: u32, out2: u32, in1: u32, in2: u32) -> (r:
    Instruction<KoalaBear>)
    requires
        mult1 < KOALA_BEAR_PRIME,
        mult2 < KOALA_BEAR_PRIME,
        bit < KOALA_BEAR_PRIME,
        out1 < KOALA_BEAR_PRIME,
        out2 < KOALA_BEAR_PRIME,
        in1 < KOALA_BEAR_PRIME,
        in2 < KOALA_BEAR_PRIME,
    ensures
        r matches Instruction::Select(i) && i.mult1@ == mult1 && i.mult2@ == mult2
            && i.addrs.bit.0@ == bit && i.addrs.out1.0@ == out1 && i.addrs.out2.0@ == out2
            && i.addrs.in1.0@ == in1 && i.addrs.in2.0@ == in2,
{
    Instruction::Select(
        SelectInstr {
            mult1: KoalaBear::from_canonical_u32(mult1),
            mult2: KoalaBear::from_canonical_u32(mult2),
            addrs: SelectIo {
                bit: address(bit),
                out1: address(out1),
                out2: address(out2),
                in1: address(in1),
                in2: address(in2),
            },
        },
    )
}

/// The addresses at the given field elements.
pub open spec fn addresses_at(elements: Seq<KoalaBear>) -> Seq<Address<KoalaBear>> {
    Seq::new(elements.len(), |i: int| Address(elements[i]))
}

/// An exponentiation of the value at `base` by the exponent whose bits, in
/// reverse, are at the addresses `exp`; the result at `result` is read `mult`
/// times.
pub fn exp_reverse_bits_len(mult: u32, base: KoalaBear, exp: Vec<KoalaBear>, result: KoalaBear) -> (r:
    Instruction<KoalaBear>)
    requires
        mult < KOALA_BEAR_PRIME,
    ensures
        r matches Instruction::ExpReverseBitsLen(i) && i.mult@ == mult && i.addrs.base == Address(
            base,
        ) && i.addrs.exp@ == addresses_at(exp@) && i.addrs.result == Address(result),
{
    let mut exp_addrs: Vec<Address<KoalaBear>> = Vec::new();
    let mut k: usize = 0;
    while k < exp.len()
        invariant
            k <= exp@.len(),
            exp_addrs@ == addresses_at(exp@.take(k as int)),
        decreases exp@.len() - k,
    {
        exp_addrs.push(Address(exp[k]));
        k = k + 1;
        assert(addresses_at(exp@.take(k as int)) =~= addresses_at(exp@.take(k - 1)).push(
            Address(exp@[k - 1]),
        ));
    }
    assert(exp@.take(exp@.len() as int) =~= exp@);
    Instruction::ExpReverseBitsLen(
        ExpReverseBitsInstr {
            mult: KoalaBear::from_canonical_u32(mult),
            addrs: ExpReverseBitsIo { base: Address(base), exp: exp_addrs, result: Address(result) },
        },
    )
}

/// A fold of openings into the running accumulators of the FRI argument, from
/// the single addresses `z`, `alpha` and `x` and six vectors of addresses; the
/// `k`-th outputs are read `alpha_mults[k]` and `ro_mults[k]` times.
pub fn fri_fold(
    z: u32,
    alpha: u32,
    x: u32,
    mat_opening: Vec<u32>,
    ps_at_z: Vec<u32>,
    alpha_pow_input: Vec<u32>,
    ro_input: Vec<u32>,
    alpha_pow_output: Vec<u32>,
    ro_output: Vec<u32>,
    alpha_mults: Vec<u32>,
    ro_mults: Vec<u32>,
) -> (r: Instruction<KoalaBear>)
    requires
        z < KOALA_BEAR_PRIME,
        alpha < KOALA_BEAR_PRIME,
        x < KOALA_BEAR_PRIME,
        all_canonical(mat_opening@),
        all_canonical(ps_at_z@),
        all_canonical(alpha_pow_input@),
        all_canonical(ro_input@),
        all_canonical(alpha_pow_output@),
        all_canonical(ro_output@),
        all_canonical(alpha_mults@),
        all_canonical(ro_mults@),
    ensures
        r matches Instruction::FriFold(i) && {
            &&& i.base_single_addrs.x.0@ == x
            &&& i.ext_single_addrs.z.0@ == z
            &&& i.ext_single_addrs.alpha.0@ == alpha
            &&& locations(i.ext_vec_addrs.mat_opening@) == mat_opening@
            &&& locations(i.ext_vec_addrs.ps_at_z@) == ps_at_z@
            &&& locations(i.ext_vec_addrs.alpha_pow_input@) == alpha_pow_input@
            &&& locations(i.ext_vec_addrs.ro_input@) == ro_input@
            &&& locations(i.ext_vec_addrs.alpha_pow_output@) == alpha_pow_output@
            &&& locations(i.ext_vec_addrs.ro_output@) == ro_output@
            &&& representatives(i.alpha_pow_mults@) == alpha_mults@
            &&& representatives(i.ro_mults@) == ro_mults@
        },
{
    Instruction::FriFold(
        Box::new(
            FriFoldInstr {
                base_single_addrs: FriFoldBaseIo { x: address(x) },
                ext_single_addrs: FriFoldExtSingleIo { z: address(z), alpha: address(alpha) },
                ext_vec_addrs: FriFoldExtVecIo {
                    mat_opening: addresses(&mat_opening),
                    ps_at_z: addresses(&ps_at_z),
                    alpha_pow_input: addresses(&alpha_pow_input),
                    ro_input: addresses(&ro_input),
                    alpha_pow_output: addresses(&alpha_pow_output),
                    ro_output: addresses(&ro_output),
                },
                alpha_pow_mults: elements(&alpha_mults),
                ro_mults: elements(&ro_mults),
            },
        ),
    )
}

/// A batched fold into the accumulator at `acc`, which is read `acc_mult`
/// times, from three vectors of addresses.
pub fn batch_fri(
    acc: u32,
    alpha_pows: Vec<u32>,
    p_at_zs: Vec<u32>,
    p_at_xs: Vec<u32>,
    acc_mult: u32,
) -> (r: Instruction<KoalaBear>)
    requires
        acc < KOALA_BEAR_PRIME,
        acc_mult < KOALA_BEAR_PRIME,
        all_canonical(alpha_pows@),
        all_canonical(p_at_zs@),
        all_canonical(p_at_xs@),
    ensures
        r matches Instruction::BatchFRI(i) && {
            &&& i.ext_single_addrs.acc.0@ == acc
            &&& i.acc_mult@ == acc_mult
            &&& locations(i.base_vec_addrs.p_at_x@) == p_at_xs@
            &&& locations(i.ext_vec_addrs.p_at_z@) == p_at_zs@
            &&& locations(i.ext_vec_addrs.alpha_pow@) == alpha_pows@
        },
{
    Instruction::BatchFRI(
        Box::new(
            BatchFRIInstr {
                base_vec_addrs: BatchFRIBaseVecIo { p_at_x: addresses(&p_at_xs) },
                ext_single_addrs: BatchFRIExtSingleIo { acc: address(acc) },
                ext_vec_addrs: BatchFRIExtVecIo {
                    p_at_z: addresses(&p_at_zs),
                    alpha_pow: addresses(&alpha_pows),
                },
                acc_mult: KoalaBear::from_canonical_u32(acc_mult),
            },
        ),
    )
}

/// The binding of the public values to addresses: position by position, the
/// address whose canonical representative the layout gives.
pub fn commit_public_values(public_values_a: &RecursionPublicValues<u32>) -> (r: Instruction<
    KoalaBear,
>)
    requires
        all_canonical(public_values_a.elements@),
    ensures
        r matches Instruction::CommitPublicValues(i) && locations(i.pv_addrs.elements@)
            == public_values_a.elements@,
{
    Instruction::CommitPublicValues(
        Box::new(
            CommitPublicValuesInstr {
                pv_addrs: RecursionPublicValues { elements: addresses(&public_values_a.elements) },
            },
        ),
    )
}

} // verus!

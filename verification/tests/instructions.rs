use recursion_shapes::field::{KoalaBear, KOALA_BEAR_PRIME};
use recursion_shapes::instruction::{
    base_alu, batch_fri, commit_public_values, exp_reverse_bits_len, ext_alu, fri_fold, mem,
    mem_block, mem_ext, mem_single, poseidon2, select, Address, BaseAluOpcode, Block,
    ExtAluOpcode, FieldEltType, HintAddCurveInstr, HintBitsInstr, HintExt2FeltsInstr, HintInstr,
    Instruction, MemAccessKind, PrintInstr, RecursionPublicValues, WIDTH,
};

fn felt(n: u32) -> KoalaBear {
    KoalaBear::from_canonical_u32(n)
}

fn values_of(addresses: &[Address<KoalaBear>]) -> Vec<u32> {
    addresses.iter().map(|a| a.0.as_canonical_u32()).collect()
}

fn representatives(elements: &[KoalaBear]) -> Vec<u32> {
    elements.iter().map(|e| e.as_canonical_u32()).collect()
}

#[test]
fn base_alu_holds_its_operands() {
    match base_alu(BaseAluOpcode::MulF, 2, 10, 11, 12) {
        Instruction::BaseAlu(instr) => {
            assert_eq!(instr.opcode, BaseAluOpcode::MulF);
            assert_eq!(instr.mult.as_canonical_u32(), 2);
            assert_eq!(instr.addrs.out.0.as_canonical_u32(), 10);
            assert_eq!(instr.addrs.in1.0.as_canonical_u32(), 11);
            assert_eq!(instr.addrs.in2.0.as_canonical_u32(), 12);
        }
        other => panic!("not a base field instruction: {:?}", other),
    }
}

#[test]
fn base_alu_takes_the_largest_representative() {
    let top = KOALA_BEAR_PRIME - 1;
    match base_alu(BaseAluOpcode::DivF, top, top, top, top) {
        Instruction::BaseAlu(instr) => {
            assert_eq!(instr.opcode, BaseAluOpcode::DivF);
            assert_eq!(instr.mult.as_canonical_u32(), top);
            assert_eq!(instr.addrs.out.0.as_canonical_u32(), top);
        }
        other => panic!("not a base field instruction: {:?}", other),
    }
}

#[test]
fn ext_alu_holds_its_operands() {
    match ext_alu(ExtAluOpcode::SubE, 1, 4, 8, 12) {
        Instruction::ExtAlu(instr) => {
            assert_eq!(instr.opcode, ExtAluOpcode::SubE);
            assert_eq!(instr.mult.as_canonical_u32(), 1);
            assert_eq!(instr.addrs.out.0.as_canonical_u32(), 4);
            assert_eq!(instr.addrs.in1.0.as_canonical_u32(), 8);
            assert_eq!(instr.addrs.in2.0.as_canonical_u32(), 12);
        }
        other => panic!("not an extension field instruction: {:?}", other),
    }
}

#[test]
fn mem_pads_a_base_value_with_zeros() {
    match mem(MemAccessKind::Write, 3, 20, 99) {
        Instruction::Mem(instr) => {
            assert_eq!(instr.kind, MemAccessKind::Write);
            assert_eq!(instr.mult.as_canonical_u32(), 3);
            assert_eq!(instr.addrs.inner.0.as_canonical_u32(), 20);
            assert_eq!(representatives(&instr.vals.inner.0), vec![99, 0, 0, 0]);
        }
        other => panic!("not a memory instruction: {:?}", other),
    }
}

#[test]
fn mem_single_pads_an_element_with_zeros() {
    match mem_single(MemAccessKind::Read, 1, 21, felt(7)) {
        Instruction::Mem(instr) => {
            assert_eq!(instr.kind, MemAccessKind::Read);
            assert_eq!(instr.mult.as_canonical_u32(), 1);
            assert_eq!(instr.addrs.inner.0.as_canonical_u32(), 21);
            assert_eq!(representatives(&instr.vals.inner.0), vec![7, 0, 0, 0]);
        }
        other => panic!("not a memory instruction: {:?}", other),
    }
}

#[test]
fn mem_ext_keeps_all_coefficients() {
    let value = [felt(1), felt(2), felt(3), felt(4)];
    match mem_ext(MemAccessKind::Write, 5, 22, value) {
        Instruction::Mem(instr) => {
            assert_eq!(instr.mult.as_canonical_u32(), 5);
            assert_eq!(instr.addrs.inner.0.as_canonical_u32(), 22);
            assert_eq!(instr.vals.inner.0, value);
        }
        other => panic!("not a memory instruction: {:?}", other),
    }
}

#[test]
fn mem_block_keeps_the_block() {
    let block = Block([felt(9), felt(8), felt(7), felt(6)]);
    match mem_block(MemAccessKind::Read, 0, 23, block) {
        Instruction::Mem(instr) => {
            assert_eq!(instr.kind, MemAccessKind::Read);
            assert_eq!(instr.mult.as_canonical_u32(), 0);
            assert_eq!(instr.vals.inner, block);
        }
        other => panic!("not a memory instruction: {:?}", other),
    }
}

#[test]
fn poseidon2_keeps_each_lane() {
    let mut mults = [0u32; WIDTH];
    let mut output = [0u32; WIDTH];
    let mut input = [0u32; WIDTH];
    for k in 0..WIDTH {
        mults[k] = k as u32;
        output[k] = 100 + k as u32;
        input[k] = 200 + k as u32;
    }
    match poseidon2(mults, output, input) {
        Instruction::Poseidon2(instr) => {
            assert_eq!(representatives(&instr.mults), mults.to_vec());
            assert_eq!(values_of(&instr.addrs.output), output.to_vec());
            assert_eq!(values_of(&instr.addrs.input), input.to_vec());
        }
        other => panic!("not a permutation: {:?}", other),
    }
}

#[test]
fn select_holds_its_operands() {
    match select(1, 2, 3, 4, 5, 6, 7) {
        Instruction::Select(instr) => {
            assert_eq!(instr.mult1.as_canonical_u32(), 1);
            assert_eq!(instr.mult2.as_canonical_u32(), 2);
            assert_eq!(instr.addrs.bit.0.as_canonical_u32(), 3);
            assert_eq!(instr.addrs.out1.0.as_canonical_u32(), 4);
            assert_eq!(instr.addrs.out2.0.as_canonical_u32(), 5);
            assert_eq!(instr.addrs.in1.0.as_canonical_u32(), 6);
            assert_eq!(instr.addrs.in2.0.as_canonical_u32(), 7);
        }
        other => panic!("not a select: {:?}", other),
    }
}

#[test]
fn exp_reverse_bits_len_addresses_the_given_elements() {
    match exp_reverse_bits_len(4, felt(30), vec![felt(31), felt(32), felt(33)], felt(34)) {
        Instruction::ExpReverseBitsLen(instr) => {
            assert_eq!(instr.mult.as_canonical_u32(), 4);
            assert_eq!(instr.addrs.base, Address(felt(30)));
            assert_eq!(values_of(&instr.addrs.exp), vec![31, 32, 33]);
            assert_eq!(instr.addrs.result, Address(felt(34)));
        }
        other => panic!("not an exponentiation: {:?}", other),
    }
}

#[test]
fn exp_reverse_bits_len_takes_an_empty_exponent() {
    match exp_reverse_bits_len(0, felt(1), vec![], felt(2)) {
        Instruction::ExpReverseBitsLen(instr) => assert!(instr.addrs.exp.is_empty()),
        other => panic!("not an exponentiation: {:?}", other),
    }
}

#[test]
fn fri_fold_keeps_every_group_in_its_place() {
    let instr = fri_fold(
        1,
        2,
        3,
        vec![10, 11],
        vec![20, 21],
        vec![30, 31],
        vec![40, 41],
        vec![50, 51],
        vec![60, 61],
        vec![7, 8],
        vec![9, 10],
    );
    match instr {
        Instruction::FriFold(instr) => {
            assert_eq!(instr.ext_single_addrs.z.0.as_canonical_u32(), 1);
            assert_eq!(instr.ext_single_addrs.alpha.0.as_canonical_u32(), 2);
            assert_eq!(instr.base_single_addrs.x.0.as_canonical_u32(), 3);
            assert_eq!(values_of(&instr.ext_vec_addrs.mat_opening), vec![10, 11]);
            assert_eq!(values_of(&instr.ext_vec_addrs.ps_at_z), vec![20, 21]);
            assert_eq!(values_of(&instr.ext_vec_addrs.alpha_pow_input), vec![30, 31]);
            assert_eq!(values_of(&instr.ext_vec_addrs.ro_input), vec![40, 41]);
            assert_eq!(values_of(&instr.ext_vec_addrs.alpha_pow_output), vec![50, 51]);
            assert_eq!(values_of(&instr.ext_vec_addrs.ro_output), vec![60, 61]);
            assert_eq!(representatives(&instr.alpha_pow_mults), vec![7, 8]);
            assert_eq!(representatives(&instr.ro_mults), vec![9, 10]);
        }
        other => panic!("not a fold: {:?}", other),
    }
}

#[test]
fn fri_fold_takes_groups_of_different_lengths() {
    let instr = fri_fold(0, 0, 0, vec![], vec![1], vec![1, 2], vec![], vec![3], vec![], vec![], vec![4]);
    match instr {
        Instruction::FriFold(instr) => {
            assert!(instr.ext_vec_addrs.mat_opening.is_empty());
            assert_eq!(values_of(&instr.ext_vec_addrs.ps_at_z), vec![1]);
            assert_eq!(values_of(&instr.ext_vec_addrs.alpha_pow_input), vec![1, 2]);
            assert_eq!(values_of(&instr.ext_vec_addrs.alpha_pow_output), vec![3]);
            assert_eq!(representatives(&instr.ro_mults), vec![4]);
        }
        other => panic!("not a fold: {:?}", other),
    }
}

#[test]
fn batch_fri_keeps_every_group_in_its_place() {
    match batch_fri(5, vec![1, 2], vec![3, 4], vec![6, 7, 8], 9) {
        Instruction::BatchFRI(instr) => {
            assert_eq!(instr.ext_single_addrs.acc.0.as_canonical_u32(), 5);
            assert_eq!(instr.acc_mult.as_canonical_u32(), 9);
            assert_eq!(values_of(&instr.ext_vec_addrs.alpha_pow), vec![1, 2]);
            assert_eq!(values_of(&instr.ext_vec_addrs.p_at_z), vec![3, 4]);
            assert_eq!(values_of(&instr.base_vec_addrs.p_at_x), vec![6, 7, 8]);
        }
        other => panic!("not a batched fold: {:?}", other),
    }
}

#[test]
fn commit_public_values_keeps_the_positions() {
    let layout = RecursionPublicValues { elements: vec![40, 41, 42, 7] };
    match commit_public_values(&layout) {
        Instruction::CommitPublicValues(instr) => {
            assert_eq!(values_of(&instr.pv_addrs.elements), vec![40, 41, 42, 7]);
        }
        other => panic!("not a commitment: {:?}", other),
    }
}

#[test]
fn hint_and_print_instructions_are_plain_data() {
    let out = (Address(felt(1)), felt(2));
    let bits = Instruction::HintBits(HintBitsInstr {
        output_addrs_mults: vec![out],
        input_addr: Address(felt(3)),
    });
    let hint = Instruction::Hint(HintInstr { output_addrs_mults: vec![out, out] });
    let ext = Instruction::HintExt2Felts(HintExt2FeltsInstr {
        output_addrs_mults: [out; 4],
        input_addr: Address(felt(4)),
    });
    let curve = Instruction::HintAddCurve(HintAddCurveInstr {
        output_x_addrs_mults: vec![out],
        output_y_addrs_mults: vec![out],
        input1_x_addrs: vec![Address(felt(5))],
        input1_y_addrs: vec![Address(felt(6))],
        input2_x_addrs: vec![Address(felt(7))],
        input2_y_addrs: vec![Address(felt(8))],
    });
    let print = Instruction::Print(PrintInstr {
        field_elt_type: FieldEltType::Extension,
        addr: Address(felt(9)),
    });
    assert!(matches!(bits.clone(), Instruction::HintBits(i) if i.output_addrs_mults.len() == 1));
    assert!(matches!(hint.clone(), Instruction::Hint(i) if i.output_addrs_mults.len() == 2));
    assert!(matches!(ext.clone(), Instruction::HintExt2Felts(i) if i.input_addr == Address(felt(4))));
    assert!(matches!(curve.clone(), Instruction::HintAddCurve(i) if i.input2_y_addrs[0] == Address(felt(8))));
    assert!(matches!(print.clone(), Instruction::Print(i) if i.field_elt_type == FieldEltType::Extension));
}

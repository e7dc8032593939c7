use bakhtscript::assemble::{decode, encode, encode_with_size, Bytecode, Decoded, Encoding};
use bakhtscript::bin::{
    Instruction, IADD, IANEW, ICALL, ICJMP, IJMP, IKONST, ILOAD, IPOP, IRET, ISTORE,
};

fn bytes(code: &Bytecode) -> Vec<u8> {
    code.bytes[..code.len as usize].to_vec()
}

fn with_operands() -> Vec<fn(usize) -> Instruction> {
    vec![
        Instruction::Pop,
        Instruction::Load,
        Instruction::Store,
        Instruction::Call,
        Instruction::Konst,
        Instruction::Anew,
    ]
}

fn without_operands() -> Vec<Instruction> {
    vec![
        Instruction::Nop,
        Instruction::Add,
        Instruction::Sub,
        Instruction::Mult,
        Instruction::Div,
        Instruction::Eq,
        Instruction::Ne,
        Instruction::Ge,
        Instruction::Le,
        Instruction::Gt,
        Instruction::Lt,
        Instruction::SetAt,
        Instruction::Get,
        Instruction::Ret,
        Instruction::Nil,
        Instruction::True,
        Instruction::False,
        Instruction::Mod,
    ]
}

#[test]
fn round_trip_at_the_width_boundaries() {
    let cases: [(usize, usize); 8] = [
        (0, 2),
        (1, 2),
        (255, 2),
        (256, 3),
        (65535, 3),
        (65536, 5),
        (4294967295, 5),
        (4294967296, 9),
    ];
    for make in with_operands() {
        for (n, len) in cases {
            let i = make(n);
            let code = encode(i);
            assert_eq!(code.len as usize, len);
            let (opcode, operand, _) = i.encode_params();
            let d = decode(&bytes(&code), 0).unwrap();
            assert_eq!(
                d,
                Decoded {
                    opcode,
                    operand: operand as u64,
                    next: len
                }
            );
            assert_eq!(operand, n);
        }
    }
}

#[test]
fn instructions_without_operand_are_one_byte() {
    let all = without_operands();
    assert_eq!(all.len(), 18);
    for i in all {
        let (opcode, operand, encoding) = i.encode_params();
        assert_eq!(operand, 0);
        assert_eq!(encoding, Encoding::Bare);
        assert!(opcode <= 63);
        let code = encode(i);
        assert_eq!(bytes(&code), vec![opcode]);
        assert_eq!(
            decode(&bytes(&code), 0),
            Some(Decoded {
                opcode,
                operand: 0,
                next: 1
            })
        );
    }
}

#[test]
fn operand_bytes_are_big_endian() {
    assert_eq!(bytes(&encode(Instruction::Load(0x12))), vec![ILOAD, 0x12]);
    assert_eq!(
        bytes(&encode(Instruction::Konst(0x1234))),
        vec![IKONST | 0x40, 0x12, 0x34]
    );
    assert_eq!(
        bytes(&encode(Instruction::Pop(0x12345678))),
        vec![IPOP | 0x80, 0x12, 0x34, 0x56, 0x78]
    );
    assert_eq!(
        bytes(&encode(Instruction::Anew(0x0123456789abcdef))),
        vec![IANEW | 0xc0, 0x01, 0x23, 0x45, 0x67, 0x89, 0xab, 0xcd, 0xef]
    );
}

#[test]
fn branches_always_take_two_operand_bytes() {
    assert_eq!(bytes(&encode(Instruction::Jmp(0))), vec![IJMP | 0x40, 0, 0]);
    assert_eq!(
        bytes(&encode(Instruction::Cjmp(5))),
        vec![ICJMP | 0x40, 0, 5]
    );
    assert_eq!(
        bytes(&encode(Instruction::Jmp(0xffff))),
        vec![IJMP | 0x40, 0xff, 0xff]
    );
    assert_eq!(
        Instruction::Cjmp(7).encode_params(),
        (ICJMP, 7, Encoding::Fixed(2))
    );
    let d = decode(&vec![ICJMP | 0x40, 0x01, 0x02], 0).unwrap();
    assert_eq!((d.opcode, d.operand, d.next), (ICJMP, 0x0102, 3));
}

#[test]
fn encode_with_size_keeps_the_low_bytes() {
    assert_eq!(
        bytes(&encode_with_size(ICALL, 3, 4)),
        vec![ICALL | 0x80, 0, 0, 0, 3]
    );
    assert_eq!(
        bytes(&encode_with_size(ISTORE, 0x1234, 1)),
        vec![ISTORE, 0x34]
    );
    assert_eq!(
        bytes(&encode_with_size(ISTORE, 0x1234, 8)),
        vec![ISTORE | 0xc0, 0, 0, 0, 0, 0, 0, 0x12, 0x34]
    );
    assert_eq!(bytes(&encode_with_size(ISTORE, 7, 2)).len(), 3);
}

#[test]
fn decode_reads_at_any_position() {
    let mut code = Vec::new();
    for i in [
        Instruction::Konst(300),
        Instruction::Add,
        Instruction::Load(2),
        Instruction::Ret,
    ] {
        code.extend(bytes(&encode(i)));
    }
    let a = decode(&code, 0).unwrap();
    assert_eq!((a.opcode, a.operand, a.next), (IKONST, 300, 3));
    let b = decode(&code, a.next).unwrap();
    assert_eq!((b.opcode, b.operand, b.next), (IADD, 0, 4));
    let c = decode(&code, b.next).unwrap();
    assert_eq!((c.opcode, c.operand, c.next), (ILOAD, 2, 6));
    let d = decode(&code, c.next).unwrap();
    assert_eq!((d.opcode, d.operand, d.next), (IRET, 0, 7));
    assert_eq!(decode(&code, d.next), None);
}

#[test]
fn decode_refuses_a_cut_off_operand() {
    assert_eq!(decode(&vec![], 0), None);
    assert_eq!(decode(&vec![ILOAD], 0), None);
    assert_eq!(decode(&vec![IKONST | 0x40, 1], 0), None);
    assert_eq!(decode(&vec![IKONST | 0x80, 1, 2, 3], 0), None);
    assert_eq!(decode(&vec![IKONST | 0xc0, 1, 2, 3, 4, 5, 6, 7], 0), None);
    assert_eq!(decode(&vec![IADD], 1), None);
}

#[test]
fn decode_masks_the_size_tag() {
    let d = decode(&vec![IADD | 0xc0], 0).unwrap();
    assert_eq!((d.opcode, d.operand, d.next), (IADD, 0, 1));
}

#[test]
fn instruction_as_text() {
    assert_eq!(Instruction::Nop.to_string(), "nop");
    assert_eq!(Instruction::Mult.to_string(), "mult");
    assert_eq!(Instruction::SetAt.to_string(), "set");
    assert_eq!(Instruction::Pop(0).to_string(), "pop(0)");
    assert_eq!(Instruction::Load(7).to_string(), "load(7)");
    assert_eq!(Instruction::Store(10).to_string(), "store(10)");
    assert_eq!(Instruction::Call(12345).to_string(), "call(12345)");
    assert_eq!(
        Instruction::Konst(18446744073709551615).to_string(),
        "konst(18446744073709551615)"
    );
    assert_eq!(Instruction::Anew(100).to_string(), "anew(100)");
    assert_eq!(Instruction::Jmp(65535).to_string(), "jmp(65535)");
    assert_eq!(Instruction::Cjmp(9).to_string(), "cjmp(9)");
    assert_eq!(Instruction::False.to_string(), "false");
}

#[test]
fn default_bytecode_is_empty() {
    let code = Bytecode::default();
    assert_eq!(code.len, 0);
    assert_eq!(code.bytes, [0u8; 9]);
}

#[test]
fn the_bytes_behind_the_encoded_ones_are_zero() {
    for i in [
        Instruction::Add,
        Instruction::Load(1),
        Instruction::Konst(0xffff),
        Instruction::Cjmp(0xffff),
        Instruction::Pop(0xffff_ffff),
    ] {
        let code = encode(i);
        assert!(code.bytes[code.len as usize..].iter().all(|b| *b == 0));
    }
    for size in [1, 2, 4] {
        let code = encode_with_size(IRET, usize::MAX, size);
        assert_eq!(code.len, size + 1);
        assert!(code.bytes[1..code.len as usize].iter().all(|b| *b == 0xff));
        assert!(code.bytes[code.len as usize..].iter().all(|b| *b == 0));
    }
    assert_eq!(
        encode_with_size(ICJMP, 0x0102, 2).bytes,
        [0x79, 0x01, 0x02, 0, 0, 0, 0, 0, 0]
    );
}

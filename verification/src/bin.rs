//! The instruction set: canonical opcode numbers and the shape of each
//! instruction's operand.

use vstd::prelude::*;
use vstd::string::StringExecFns;
use crate::assemble::Encoding;
use crate::text::push_char;

verus! {

pub const INOP: u8 = 0;
pub const IADD: u8 = 1;
pub const ISUB: u8 = 2;
pub const IMULT: u8 = 3;
pub const IDIV: u8 = 4;
pub const IEQ: u8 = 5;
pub const INE: u8 = 6;
pub const IGE: u8 = 7;
pub const ILE: u8 = 8;
pub const IGT: u8 = 9;
pub const ILT: u8 = 10;
pub const ISET: u8 = 11;
pub const IGET: u8 = 12;
pub const IPOP: u8 = 45;
pub const IRET: u8 = 14;
pub const ILOAD: u8 = 47;
pub const ISTORE: u8 = 48;
pub const ICALL: u8 = 49;
pub const IKONST: u8 = 50;
pub const INIL: u8 = 19;
pub const ITRUE: u8 = 20;
pub const IFALSE: u8 = 21;
pub const IANEW: u8 = 54;
pub const IMOD: u8 = 23;
pub const IJMP: u8 = 56;
pub const ICJMP: u8 = 57;

/// The character of the digit `d`.
pub open spec fn digit_char(d: nat) -> char {
    if d == 0 {
        '0'
    } else if d == 1 {
        '1'
    } else if d == 2 {
        '2'
    } else if d == 3 {
        '3'
    } else if d == 4 {
        '4'
    } else if d == 5 {
        '5'
    } else if d == 6 {
        '6'
    } else if d == 7 {
        '7'
    } else if d == 8 {
        '8'
    } else {
        '9'
    }
}

/// The decimal numeral of `n`, without leading zeros.
pub open spec fn decimal_digits(n: nat) -> Seq<char>
    decreases n,
{
    if n < 10 {
        seq![digit_char(n)]
    } else {
        decimal_digits(n / 10).push(digit_char(n % 10))
    }
}

/// Appends the decimal numeral of `n` to `s`.
pub fn append_decimal(s: &mut String, n: usize)
    ensures
        final(s)@ == old(s)@ + decimal_digits(n as nat),
    decreases n,
{
    if n >= 10 {
        append_decimal(s, n / 10);
    }
    let d = n % 10;
    let c = if d == 0 {
        '0'
    } else if d == 1 {
        '1'
    } else if d == 2 {
        '2'
    } else if d == 3 {
        '3'
    } else if d == 4 {
        '4'
    } else if d == 5 {
        '5'
    } else if d == 6 {
        '6'
    } else if d == 7 {
        '7'
    } else if d == 8 {
        '8'
    } else {
        '9'
    };
    push_char(s, c);
}

/// One instruction of the stack machine. An instruction either stands alone or
/// carries a single non-negative operand.
#[derive(Clone, Copy, Debug, PartialEq, Eq, Structural)]
pub enum Instruction {
    Nop,
    Add,
    Sub,
    Mult,
    Div,
    Eq,
    Ne,
    Ge,
    Le,
    Gt,
    Lt,
    SetAt,
    Get,
    Pop(usize),
    Ret,
    Load(usize),
    Store(usize),
    Call(usize),
    Konst(usize),
    Nil,
    True,
    False,
    Anew(usize),
    Mod,
    Jmp(u16),
    Cjmp(u16),
}

impl Instruction {
    /// The canonical opcode number, always below 64.
    pub open spec fn opcode(self) -> u8 {
        match self {
            Instruction::Nop => INOP,
            Instruction::Add => IADD,
            Instruction::Sub => ISUB,
            Instruction::Mult => IMULT,
            Instruction::Div => IDIV,
            Instruction::Eq => IEQ,
            Instruction::Ne => INE,
            Instruction::Ge => IGE,
            Instruction::Le => ILE,
            Instruction::Gt => IGT,
            Instruction::Lt => ILT,
            Instruction::SetAt => ISET,
            Instruction::Get => IGET,
            Instruction::Pop(_) => IPOP,
            Instruction::Ret => IRET,
            Instruction::Load(_) => ILOAD,
            Instruction::Store(_) => ISTORE,
            Instruction::Call(_) => ICALL,
            Instruction::Konst(_) => IKONST,
            Instruction::Nil => INIL,
            Instruction::True => ITRUE,
            Instruction::False => IFALSE,
            Instruction::Anew(_) => IANEW,
            Instruction::Mod => IMOD,
            Instruction::Jmp(_) => IJMP,
            Instruction::Cjmp(_) => ICJMP,
        }
    }

    /// The operand, or zero for an instruction that has none.
    pub open spec fn operand(self) -> usize {
        match self {
            Instruction::Pop(n) => n,
            Instruction::Load(n) => n,
            Instruction::Store(n) => n,
            Instruction::Call(n) => n,
            Instruction::Konst(n) => n,
            Instruction::Anew(n) => n,
            Instruction::Jmp(n) => n as usize,
            Instruction::Cjmp(n) => n as usize,
            _ => 0,
        }
    }

    /// How the operand is laid out behind the opcode byte: not at all, in the
    /// fewest bytes that hold it, or (for branches) in exactly two bytes.
    pub open spec fn encoding(self) -> Encoding {
        match self {
            Instruction::Pop(_) | Instruction::Load(_) | Instruction::Store(_)
            | Instruction::Call(_) | Instruction::Konst(_) | Instruction::Anew(_) => {
                Encoding::Variadic
            },
            Instruction::Jmp(_) | Instruction::Cjmp(_) => Encoding::Fixed(2),
            _ => Encoding::Bare,
        }
    }

    /// Whether the instruction carries an operand.
    pub open spec fn has_operand(self) -> bool {
        self.encoding() != Encoding::Bare
    }

    /// Opcode, operand and operand layout of this instruction.
    pub fn encode_params(&self) -> (r: (u8, usize, Encoding))
        ensures
            r.0 == self.opcode(),
            r.1 == self.operand(),
            r.2 == self.encoding(),
            r.0 <= 63,
    {
        match self {
            Instruction::Nop => (INOP, 0usize, Encoding::Bare),
            Instruction::Add => (IADD, 0usize, Encoding::Bare),
            Instruction::Sub => (ISUB, 0usize, Encoding::Bare),
            Instruction::Mult => (IMULT, 0usize, Encoding::Bare),
            Instruction::Div => (IDIV, 0usize, Encoding::Bare),
            Instruction::Eq => (IEQ, 0usize, Encoding::Bare),
            Instruction::Ne => (INE, 0usize, Encoding::Bare),
            Instruction::Ge => (IGE, 0usize, Encoding::Bare),
            Instruction::Le => (ILE, 0usize, Encoding::Bare),
            Instruction::Gt => (IGT, 0usize, Encoding::Bare),
            Instruction::Lt => (ILT, 0usize, Encoding::Bare),
            Instruction::SetAt => (ISET, 0usize, Encoding::Bare),
            Instruction::Get => (IGET, 0usize, Encoding::Bare),
            Instruction::Pop(operand) => (IPOP, *operand, Encoding::Variadic),
            Instruction::Ret => (IRET, 0usize, Encoding::Bare),
            Instruction::Load(operand) => (ILOAD, *operand, Encoding::Variadic),
            Instruction::Store(operand) => (ISTORE, *operand, Encoding::Variadic),
            Instruction::Call(operand) => (ICALL, *operand, Encoding::Variadic),
            Instruction::Konst(operand) => (IKONST, *operand, Encoding::Variadic),
            Instruction::Nil => (INIL, 0usize, Encoding::Bare),
            Instruction::True => (ITRUE, 0usize, Encoding::Bare),
            Instruction::False => (IFALSE, 0usize, Encoding::Bare),
            Instruction::Anew(operand) => (IANEW, *operand, Encoding::Variadic),
            Instruction::Mod => (IMOD, 0usize, Encoding::Bare),
            Instruction::Jmp(operand) => (IJMP, *operand as usize, Encoding::Fixed(2)),
            Instruction::Cjmp(operand) => (ICJMP, *operand as usize, Encoding::Fixed(2)),
        }
    }

    /// The name of the instruction, without its operand.
    pub open spec fn name(self) -> Seq<char> {
        match self {
            Instruction::Nop => "nop"@,
            Instruction::Add => "add"@,
            Instruction::Sub => "sub"@,
            Instruction::Mult => "mult"@,
            Instruction::Div => "div"@,
            Instruction::Eq => "eq"@,
            Instruction::Ne => "ne"@,
            Instruction::Ge => "ge"@,
            Instruction::Le => "le"@,
            Instruction::Gt => "gt"@,
            Instruction::Lt => "lt"@,
            Instruction::SetAt => "set"@,
            Instruction::Get => "get"@,
            Instruction::Pop(_) => "pop"@,
            Instruction::Ret => "ret"@,
            Instruction::Load(_) => "load"@,
            Instruction::Store(_) => "store"@,
            Instruction::Call(_) => "call"@,
            Instruction::Konst(_) => "konst"@,
            Instruction::Nil => "nil"@,
            Instruction::True => "true"@,
            Instruction::False => "false"@,
            Instruction::Anew(_) => "anew"@,
            Instruction::Mod => "mod"@,
            Instruction::Jmp(_) => "jmp"@,
            Instruction::Cjmp(_) => "cjmp"@,
        }
    }

    /// The instruction as text: its name, and behind it the operand in
    /// parentheses where it has one.
    pub open spec fn mnemonic(self) -> Seq<char> {
        if self.has_operand() {
            self.name() + "("@ + decimal_digits(self.operand() as nat) + ")"@
        } else {
            self.name()
        }
    }

    /// The instruction as text, such as `add` or `load(3)`.
    pub fn to_string(&self) -> (r: String)
        ensures
            r@ == self.mnemonic(),
    {
        let (name, operand): (&str, Option<usize>) = match self {
            Instruction::Nop => ("nop", None),
            Instruction::Add => ("add", None),
            Instruction::Sub => ("sub", None),
            Instruction::Mult => ("mult", None),
            Instruction::Div => ("div", None),
            Instruction::Eq => ("eq", None),
            Instruction::Ne => ("ne", None),
            Instruction::Ge => ("ge", None),
            Instruction::Le => ("le", None),
            Instruction::Gt => ("gt", None),
            Instruction::Lt => ("lt", None),
            Instruction::SetAt => ("set", None),
            Instruction::Get => ("get", None),
            Instruction::Pop(operand) => ("pop", Some(*operand)),
            Instruction::Ret => ("ret", None),
            Instruction::Load(operand) => ("load", Some(*operand)),
            Instruction::Store(operand) => ("store", Some(*operand)),
            Instruction::Call(operand) => ("call", Some(*operand)),
            Instruction::Konst(operand) => ("konst", Some(*operand)),
            Instruction::Nil => ("nil", None),
            Instruction::True => ("true", None),
            Instruction::False => ("false", None),
            Instruction::Anew(operand) => ("anew", Some(*operand)),
            Instruction::Mod => ("mod", None),
            Instruction::Jmp(operand) => ("jmp", Some(*operand as usize)),
            Instruction::Cjmp(operand) => ("cjmp", Some(*operand as usize)),
        };
        let mut r = String::from_str(name);
        match operand {
            Some(n) => {
                r.append("(");
                append_decimal(&mut r, n);
                r.append(")");
            },
            None => {},
        }
        r
    }
}

} // verus!

//! The virtual machine: one instruction per step. Work on numbers, which
//! are `f64` values, is handed to the host as a step to perform; the host
//! gives the result back through a `resume_*` method.
use vstd::prelude::*;
use crate::function::Executable;
use crate::heap::{HeapValue, MemoryManager, Value};
use crate::instruction::{op_byte, Instruction};
use crate::reader::{le_u16, le_u32};

verus! {

#[derive(Debug, Clone, Copy, PartialEq, Eq, Structural)]
pub enum NumericOp {
    Add,
    Sub,
    Mul,
    Div,
    Modulo,
    Negate,
    Less,
    LessEqual,
    Greater,
    GreaterEqual,
    Equal,
}

impl NumericOp {
    /// Whether the result is a boolean rather than a number.
    pub open spec fn is_comparison(self) -> bool {
        self == NumericOp::Less || self == NumericOp::LessEqual || self == NumericOp::Greater
            || self == NumericOp::GreaterEqual || self == NumericOp::Equal
    }
}

/// Output text, with numbers left for the host to format.
#[derive(Debug)]
pub enum Piece {
    Text(Vec<char>),
    Number(u64),
}

#[derive(Debug)]
pub enum RuntimeError {
    TypeError { message: String },
    IndexOutOfBounds { index: u64, length: usize },
    /// The code is cut short, names an unknown opcode, or refers past a table.
    InvalidBytecode { ip: usize },
    /// Calls and returns are reserved in the instruction set, not run.
    NotImplemented { ip: usize },
}

#[derive(Debug)]
pub enum Step {
    /// An instruction ran; step again.
    Continue,
    /// The script ran to its end.
    Done,
    /// Apply `op` to the numbers (`right` is unused by Negate) and hand the
    /// result to `resume_number`, or for a comparison to `resume_bool`.
    Numeric { op: NumericOp, left: u64, right: u64 },
    /// Write the pieces, then a newline.
    Print(Vec<Piece>),
    /// Write the pieces into one text and hand it to `resume_concat`.
    Concat(Vec<Piece>),
    /// Turn the number into an index below `length`, or `None` where it is
    /// negative or too large, and hand it to `resume_index`.
    Index { length: usize, number: u64 },
    Error(RuntimeError),
}

/// What the machine waits for from its host.
#[derive(Debug, Clone, Copy, PartialEq, Eq, Structural)]
pub enum Pending {
    Nothing,
    Number,
    Bool,
    Concat,
    Index { list: usize, length: usize, number: u64 },
}

/// The code of the script: the executable's last function.
pub open spec fn script(exec: Executable) -> Seq<u8> {
    if exec.functions@.len() == 0 {
        Seq::<u8>::empty()
    } else {
        exec.functions@.last().code@
    }
}

pub open spec fn truthy(v: Value) -> bool {
    !(v == Value::Bool(false) || v == Value::Nil)
}

/// The printed form of a value that is no string and no object: a number
/// is left to the host, the others are words.
pub open spec fn scalar_text(v: Value) -> Option<Seq<char>> {
    match v {
        Value::Nil => Some(seq!['n', 'i', 'l']),
        Value::Bool(true) => Some(seq!['t', 'r', 'u', 'e']),
        Value::Bool(false) => Some(seq!['f', 'a', 'l', 's', 'e']),
        _ => None,
    }
}

/// Values whose printed form is one piece: numbers, `nil`, booleans, string
/// literals within the string data, and live heap strings.
pub open spec fn printable(v: Value, exec: Executable, m: MemoryManager) -> bool {
    ||| v is Number
    ||| scalar_text(v) is Some
    ||| (v matches Value::StringLiteral { start_index, end_index } && start_index <= end_index
        && end_index <= exec.string_data@.len())
    ||| (v is Heap && m.live(v->Heap_0 as int) && m.payload(v->Heap_0 as int) is String)
}

/// Whether `p` is the printed form of the printable value `v`.
pub open spec fn piece_of(p: Piece, v: Value, exec: Executable, m: MemoryManager) -> bool {
    match v {
        Value::Number(b) => p == Piece::Number(b),
        Value::StringLiteral { start_index, end_index } => p is Text && p->Text_0@
            == exec.string_data@.subrange(start_index as int, end_index as int),
        Value::Heap(i) => p is Text && p->Text_0@ == m.payload(i as int)->String_0@,
        _ => p is Text && scalar_text(v) is Some && p->Text_0@ == scalar_text(v)->Some_0,
    }
}

/// A binary numeric step on stack `s`: both operands numbers give the
/// request for `op` and the stack without them; anything else a type error.
pub open spec fn binary_step(r: Step, fin: Seq<Value>, s: Seq<Value>, op: NumericOp) -> bool {
    match (s[s.len() - 2], s.last()) {
        (Value::Number(l), Value::Number(rt)) => r == (Step::Numeric { op, left: l, right: rt })
            && fin == s.drop_last().drop_last(),
        _ => r matches Step::Error(e) && e is TypeError,
    }
}

/// Whether the instruction at `a` is `op`.
pub open spec fn is_op(c: Seq<u8>, a: int, op: Instruction) -> bool {
    0 <= a < c.len() && c[a] == op_byte(op)
}

pub struct VM {
    stack: Vec<Value>,
    ip: usize,
    fp: usize,
    heap: MemoryManager,
    consts: Vec<u64>,
    byte_numbers: Vec<u64>,
    pending: Pending,
}

impl VM {
    pub closed spec fn wf(&self) -> bool {
        &&& self.heap.wf()
        &&& self.heap.unmarked()
        &&& forall|k: int| 0 <= k < self.stack@.len() ==> self.heap.value_ok(#[trigger] self.stack@[k])
        &&& self.byte_numbers@.len() == 256
        &&& self.fp == 0
        &&& self.pending matches Pending::Index { list, length, .. } ==> self.heap.live(list as int)
            && self.heap.payload(list as int) is List && self.heap.payload(list as int)->List_0@.len()
            == length
    }

    /// The bit patterns of the numeric constants.
    pub closed spec fn constants(&self) -> Seq<u64> {
        self.consts@
    }

    /// The machine's memory manager.
    pub closed spec fn memory(&self) -> MemoryManager {
        self.heap
    }

    pub closed spec fn waiting(&self) -> Pending {
        self.pending
    }

    pub closed spec fn values(&self) -> Seq<Value> {
        self.stack@
    }

    pub closed spec fn at(&self) -> usize {
        self.ip
    }

    /// The bit patterns of the numbers 0 to 255.
    pub closed spec fn small_numbers(&self) -> Seq<u64> {
        self.byte_numbers@
    }

    /// A machine at the start of the script. `consts` holds the bit pattern
    /// of each numeric constant's `f64`, `byte_numbers` that of each of the
    /// numbers 0 to 255.
    pub fn new(consts: Vec<u64>, byte_numbers: Vec<u64>) -> (r: Option<Self>)
        ensures
            r is Some <==> byte_numbers@.len() == 256,
            r matches Some(vm) ==> vm.wf() && vm.waiting() == Pending::Nothing && vm.values().len()
                == 0 && vm.at() == 0,
    {
        if byte_numbers.len() != 256 {
            return None;
        }
        Some(
            VM {
                stack: Vec::new(),
                ip: 0,
                fp: 0,
                heap: MemoryManager::new(),
                consts,
                byte_numbers,
                pending: Pending::Nothing,
            },
        )
    }

    pub fn stack(&self) -> (r: &Vec<Value>)
        ensures
            r@ == self.values(),
    {
        &self.stack
    }

    pub fn pending(&self) -> (r: Pending)
        ensures
            r == self.waiting(),
    {
        self.pending
    }

    fn push(&mut self, v: Value)
        requires
            old(self).wf(),
            old(self).heap.value_ok(v),
        ensures
            final(self).wf(),
            final(self).stack@ == old(self).stack@.push(v),
            final(self).heap == old(self).heap,
            final(self).ip == old(self).ip,
            final(self).pending == old(self).pending,
            final(self).consts@ == old(self).consts@,
    {
        self.stack.push(v);
        assert forall|k: int| 0 <= k < self.stack@.len() implies self.heap.value_ok(#[trigger] self.stack@[k]) by {
            if k < old(self).stack@.len() {
                assert(self.stack@[k] == old(self).stack@[k]);
            }
        }
    }

    fn pop(&mut self) -> (r: Option<Value>)
        requires
            old(self).wf(),
        ensures
            final(self).wf(),
            final(self).heap == old(self).heap,
            final(self).ip == old(self).ip,
            final(self).pending == old(self).pending,
            final(self).consts@ == old(self).consts@,
            r matches Some(v) ==> final(self).heap.value_ok(v) && old(self).stack@.len() > old(self).fp
                && final(self).stack@ == old(self).stack@.drop_last() && v == old(self).stack@.last(),
            r is None ==> final(self).stack@ == old(self).stack@ && old(self).stack@.len() <= old(self).fp,
    {
        if self.stack.len() <= self.fp {
            return None;
        }
        let v = self.stack.pop().unwrap();
        assert(old(self).heap.value_ok(old(self).stack@[old(self).stack@.len() - 1]));
        assert forall|k: int| 0 <= k < self.stack@.len() implies self.heap.value_ok(#[trigger] self.stack@[k]) by {
            assert(self.stack@[k] == old(self).stack@[k]);
        }
        Some(v)
    }

    fn read_u8(&mut self, code: &Vec<u8>) -> (r: Option<u8>)
        ensures
            old(self).ip < code@.len() ==> r == Some(code@[old(self).ip as int]) && final(self).ip
                == old(self).ip + 1,
            old(self).ip >= code@.len() ==> r is None,
            old(self).wf() ==> final(self).wf(),
            final(self).fp == old(self).fp,
            final(self).byte_numbers@ == old(self).byte_numbers@,
            final(self).stack@ == old(self).stack@,
            final(self).heap == old(self).heap,
            final(self).pending == old(self).pending,
            final(self).consts@ == old(self).consts@,
    {
        if self.ip < code.len() {
            let b = code[self.ip];
            self.ip = self.ip + 1;
            Some(b)
        } else {
            None
        }
    }

    fn read_u16(&mut self, code: &Vec<u8>) -> (r: Option<u16>)
        ensures
            old(self).ip + 2 <= code@.len() ==> r == Some(le_u16(code@, old(self).ip as int) as u16)
                && final(self).ip == old(self).ip + 2,
            old(self).ip + 2 > code@.len() ==> r is None,
            old(self).wf() ==> final(self).wf(),
            final(self).fp == old(self).fp,
            final(self).byte_numbers@ == old(self).byte_numbers@,
            final(self).stack@ == old(self).stack@,
            final(self).heap == old(self).heap,
            final(self).pending == old(self).pending,
            final(self).consts@ == old(self).consts@,
    {
        let lo = self.read_u8(code)?;
        let hi = self.read_u8(code)?;
        Some(lo as u16 + (hi as u16) * 256)
    }

    fn read_u32(&mut self, code: &Vec<u8>) -> (r: Option<u32>)
        ensures
            old(self).ip + 4 <= code@.len() ==> r == Some(le_u32(code@, old(self).ip as int) as u32)
                && final(self).ip == old(self).ip + 4,
            old(self).ip + 4 > code@.len() ==> r is None,
            old(self).wf() ==> final(self).wf(),
            final(self).fp == old(self).fp,
            final(self).byte_numbers@ == old(self).byte_numbers@,
            final(self).stack@ == old(self).stack@,
            final(self).heap == old(self).heap,
            final(self).pending == old(self).pending,
            final(self).consts@ == old(self).consts@,
    {
        let lo = self.read_u16(code)?;
        let hi = self.read_u16(code)?;
        Some(lo as u32 + (hi as u32) * 65536)
    }

    fn text(s: &[char]) -> (r: Piece)
        ensures
            r matches Piece::Text(t) && t@ == s@,
    {
        let mut t: Vec<char> = Vec::new();
        let mut k: usize = 0;
        while k < s.len()
            invariant
                k <= s@.len(),
                t@ == s@.subrange(0, k as int),
            decreases s@.len() - k,
        {
            t.push(s[k]);
            k = k + 1;
            assert(t@ =~= s@.subrange(0, k as int));
        }
        assert(s@.subrange(0, s@.len() as int) =~= s@);
        Piece::Text(t)
    }

    fn decimal(n: usize) -> (r: Vec<char>) {
        let mut digits: Vec<char> = Vec::new();
        let mut m = n;
        loop
            decreases m,
        {
            let d = (m % 10) as u32;
            let c = match d {
                0 => '0',
                1 => '1',
                2 => '2',
                3 => '3',
                4 => '4',
                5 => '5',
                6 => '6',
                7 => '7',
                8 => '8',
                _ => '9',
            };
            digits.push(c);
            m = m / 10;
            if m == 0 {
                break;
            }
        }
        let mut r: Vec<char> = Vec::new();
        let mut k = digits.len();
        while k > 0
            decreases k,
        {
            k = k - 1;
            if k < digits.len() {
                r.push(digits[k]);
            }
        }
        r
    }

    /// Appends the printed form of `v`: `nil`, `true` and `false`, the text
    /// of a string, a list as `[e1, e2]`. Lists nested deeper than `fuel`
    /// print as `[...]`.
    fn render(&self, exec: &Executable, v: Value, fuel: usize, out: &mut Vec<Piece>)
        ensures
            printable(v, *exec, self.heap) ==> final(out)@.len() == old(out)@.len() + 1 && final(out)@.drop_last()
                == old(out)@ && piece_of(final(out)@.last(), v, *exec, self.heap),
        decreases fuel,
    {
        match v {
            Value::Bool(true) => out.push(Self::text(&['t', 'r', 'u', 'e'])),
            Value::Bool(false) => out.push(Self::text(&['f', 'a', 'l', 's', 'e'])),
            Value::Nil => out.push(Self::text(&['n', 'i', 'l'])),
            Value::Number(bits) => out.push(Piece::Number(bits)),
            Value::StringLiteral { start_index, end_index } => {
                let (a, b) = (start_index as usize, end_index as usize);
                if a <= b && b <= exec.string_data.len() {
                    let mut t: Vec<char> = Vec::new();
                    let mut k = a;
                    while k < b
                        invariant
                            a <= k <= b <= exec.string_data@.len(),
                            t@ == exec.string_data@.subrange(a as int, k as int),
                        decreases b - k,
                    {
                        t.push(exec.string_data[k]);
                        k = k + 1;
                        assert(t@ =~= exec.string_data@.subrange(a as int, k as int));
                    }
                    out.push(Piece::Text(t));
                }
            },
            Value::Heap(i) => match self.heap.get(i) {
                Some(HeapValue::String(t)) => out.push(Self::text(t.as_slice())),
                Some(HeapValue::List(l)) => {
                    if fuel == 0 {
                        out.push(Self::text(&['[', '.', '.', '.', ']']));
                        return;
                    }
                    out.push(Self::text(&['[']));
                    let mut k: usize = 0;
                    while k < l.len()
                        invariant
                            fuel > 0,
                        decreases l@.len() - k,
                    {
                        if k > 0 {
                            out.push(Self::text(&[',', ' ']));
                        }
                        self.render(exec, l[k], fuel - 1, out);
                        k = k + 1;
                    }
                    out.push(Self::text(&[']']));
                },
                None => {},
            },
            Value::Function { function_index } => {
                let i = function_index as usize;
                out.push(Self::text(&['<', 'f', 'n', ' ']));
                if i < exec.functions.len() {
                    let f = &exec.functions[i];
                    match f.name {
                        crate::function::FunctionName::Named { start_index, end_index } => {
                            if start_index <= end_index && end_index <= exec.string_data.len() {
                                let name = f.name.fmt(exec.string_data.as_slice());
                                out.push(Piece::Text(name));
                            }
                        },
                        crate::function::FunctionName::Anonymous => {},
                    }
                    out.push(Self::text(&[':']));
                    out.push(Piece::Text(Self::decimal(f.param_count as usize)));
                }
                out.push(Self::text(&['>']));
            },
            Value::ReturnAdress { ip } => {
                out.push(Self::text(&['<', 'r', 'e', 't', 'u', 'r', 'n', 'a', 'd', 'd', 'r', ' ']));
                out.push(Piece::Text(Self::decimal(ip)));
                out.push(Self::text(&['>']));
            },
        }
    }

    /// The printed form of `v`.
    fn to_pieces(&self, exec: &Executable, v: Value) -> (r: Vec<Piece>)
        ensures
            printable(v, *exec, self.heap) ==> r@.len() == 1 && piece_of(r@[0], v, *exec, self.heap),
    {
        let mut out: Vec<Piece> = Vec::new();
        let fuel = self.heap.slot_count();
        self.render(exec, v, fuel, &mut out);
        assert(out@.subrange(0, out@.len() as int) =~= out@);
        out
    }

    fn type_error(message: &str) -> (r: Step)
        ensures
            r matches Step::Error(e) && e is TypeError,
    {
        Step::Error(RuntimeError::TypeError { message: message.to_string() })
    }

    /// Pops two operands; where both are numbers, asks the host for `op`.
    fn numeric(&mut self, op: NumericOp, at: usize, what: &str) -> (r: Step)
        requires
            old(self).wf(),
            old(self).pending == Pending::Nothing,
        ensures
            final(self).wf(),
            r is Numeric ==> final(self).pending == (if op.is_comparison() {
                Pending::Bool
            } else {
                Pending::Number
            }),
            !(r is Numeric) ==> final(self).pending == Pending::Nothing,
            r is Numeric || r is Error,
            r matches Step::Numeric { op: o, .. } ==> o == op,
            old(self).stack@.len() >= 2 ==> (match (
                old(self).stack@[old(self).stack@.len() - 2],
                old(self).stack@.last(),
            ) {
                (Value::Number(l), Value::Number(rt)) => r == (Step::Numeric {
                    op,
                    left: l,
                    right: rt,
                }) && final(self).stack@ == old(self).stack@.drop_last().drop_last(),
                _ => r matches Step::Error(e) && e is TypeError,
            }),
    {
        let right = match self.pop() {
            Some(v) => v,
            None => return Step::Error(RuntimeError::InvalidBytecode { ip: at }),
        };
        let left = match self.pop() {
            Some(v) => v,
            None => return Step::Error(RuntimeError::InvalidBytecode { ip: at }),
        };
        match (left, right) {
            (Value::Number(l), Value::Number(r)) => {
                self.pending = if op == NumericOp::Less || op == NumericOp::LessEqual || op
                    == NumericOp::Greater || op == NumericOp::GreaterEqual || op == NumericOp::Equal {
                    Pending::Bool
                } else {
                    Pending::Number
                };
                Step::Numeric { op, left: l, right: r }
            },
            _ => Self::type_error(what),
        }
    }

    /// Runs one instruction of the script, the executable's last function.
    #[verifier::rlimit(100)]
    #[verifier::spinoff_prover]
    pub fn step(&mut self, exec: &Executable) -> (r: Step)
        requires
            old(self).wf(),
            old(self).waiting() == Pending::Nothing,
        ensures
            final(self).wf(),
            r matches Step::Numeric { op, .. } ==> final(self).waiting() == (if op.is_comparison() {
                Pending::Bool
            } else {
                Pending::Number
            }),
            r is Concat ==> final(self).waiting() == Pending::Concat,
            r is Index ==> final(self).waiting() is Index,
            !(r is Numeric || r is Concat || r is Index) ==> final(self).waiting() == Pending::Nothing,
            ({
                let c = script(*exec);
                let a = old(self).at() as int;
                let s = old(self).values();
                &&& r is Done <==> a >= c.len()
                &&& is_op(c, a, Instruction::LoadTrue) ==> r is Continue && final(self).values() == s.push(
                    Value::Bool(true),
                ) && final(self).at() == a + 1
                &&& is_op(c, a, Instruction::LoadFalse) ==> r is Continue && final(self).values()
                    == s.push(Value::Bool(false)) && final(self).at() == a + 1
                &&& is_op(c, a, Instruction::LoadNil) ==> r is Continue && final(self).values() == s.push(
                    Value::Nil,
                ) && final(self).at() == a + 1
                &&& is_op(c, a, Instruction::LoadLitNum) && a + 2 <= c.len() ==> r is Continue
                    && final(self).values() == s.push(Value::Number(old(self).small_numbers()[c[a + 1] as int]))
                    && final(self).at() == a + 2
                &&& is_op(c, a, Instruction::Pop) ==> (if s.len() > 0 {
                    r is Continue && final(self).values() == s.drop_last() && final(self).at() == a + 1
                } else {
                    r is Error
                })
                &&& is_op(c, a, Instruction::Dup) && s.len() > 0 ==> r is Continue && final(self).values()
                    == s.push(s.last()) && final(self).at() == a + 1
                &&& is_op(c, a, Instruction::Not) && s.len() > 0 ==> r is Continue && final(self).values()
                    == s.drop_last().push(Value::Bool(!truthy(s.last()))) && final(self).at() == a + 1
                &&& is_op(c, a, Instruction::Print) && s.len() > 0 ==> r is Print && final(self).values()
                    == s.drop_last() && final(self).at() == a + 1 && (printable(s.last(), *exec, old(self).memory())
                    ==> r->Print_0@.len() == 1 && piece_of(r->Print_0@[0], s.last(), *exec, old(self).memory()))
                &&& is_op(c, a, Instruction::Jump) && a + 5 <= c.len() ==> r is Continue && final(self).values() == s && final(self).at() == le_u32(c, a + 1)
                &&& is_op(c, a, Instruction::JumpIfFalse) && a + 5 <= c.len() && s.len() > 0 ==> r is Continue
                    && final(self).values() == s.drop_last() && final(self).at() == (if truthy(s.last()) {
                    a + 5
                } else {
                    le_u32(c, a + 1) as int
                })
                &&& is_op(c, a, Instruction::GetLocal) && a + 2 <= c.len() && (c[a + 1] as int) < s.len()
                    ==> r is Continue && final(self).values() == s.push(s[c[a + 1] as int]) && final(self).at()
                    == a + 2
                &&& is_op(c, a, Instruction::SetLocal) && a + 2 <= c.len() && (c[a + 1] as int) + 1
                    < s.len() ==> r is Continue && final(self).values() == s.drop_last().update(
                    c[a + 1] as int,
                    s.last(),
                ) && final(self).at() == a + 2
                &&& is_op(c, a, Instruction::Add) && s.len() >= 2 ==> binary_step(r, final(self).values(), s, NumericOp::Add)
                &&& is_op(c, a, Instruction::Sub) && s.len() >= 2 ==> binary_step(r, final(self).values(), s, NumericOp::Sub)
                &&& is_op(c, a, Instruction::Mul) && s.len() >= 2 ==> binary_step(r, final(self).values(), s, NumericOp::Mul)
                &&& is_op(c, a, Instruction::Div) && s.len() >= 2 ==> binary_step(r, final(self).values(), s, NumericOp::Div)
                &&& is_op(c, a, Instruction::Modulo) && s.len() >= 2 ==> binary_step(r, final(self).values(), s, NumericOp::Modulo)
                &&& is_op(c, a, Instruction::LessThan) && s.len() >= 2 ==> binary_step(r, final(self).values(), s, NumericOp::Less)
                &&& is_op(c, a, Instruction::LessThanOrEqual) && s.len() >= 2 ==> binary_step(r, final(self).values(), s, NumericOp::LessEqual)
                &&& is_op(c, a, Instruction::GreaterThan) && s.len() >= 2 ==> binary_step(r, final(self).values(), s, NumericOp::Greater)
                &&& is_op(c, a, Instruction::GreaterThanOrEqual) && s.len() >= 2 ==> binary_step(r, final(self).values(), s, NumericOp::GreaterEqual)
                &&& is_op(c, a, Instruction::Negate) && s.len() >= 1 ==> (match s.last() {
                    Value::Number(n) => r == (Step::Numeric { op: NumericOp::Negate, left: n, right: 0 })
                        && final(self).values() == s.drop_last(),
                    _ => r matches Step::Error(e) && e is TypeError,
                })
                &&& is_op(c, a, Instruction::Equal) && s.len() >= 2 ==> (match (s[s.len() - 2], s.last()) {
                    (Value::Number(l), Value::Number(rt)) => r == (Step::Numeric {
                        op: NumericOp::Equal,
                        left: l,
                        right: rt,
                    }) && final(self).values() == s.drop_last().drop_last(),
                    _ => r is Continue && final(self).values() == s.drop_last().drop_last().push(
                        Value::Bool(s[s.len() - 2] == s.last()),
                    ),
                })
                &&& is_op(c, a, Instruction::Concat) && s.len() >= 2 ==> r is Concat && final(self).values()
                    == s.drop_last().drop_last() && (printable(s[s.len() - 2], *exec, old(self).memory()) && printable(
                    s.last(),
                    *exec,
                    old(self).memory(),
                ) ==> r->Concat_0@.len() == 2 && piece_of(r->Concat_0@[0], s[s.len() - 2], *exec, old(self).memory())
                    && piece_of(r->Concat_0@[1], s.last(), *exec, old(self).memory()))
                &&& is_op(c, a, Instruction::LoadConstNum) && a + 2 <= c.len() && (c[a + 1] as int) < old(self).constants().len()
                    ==> r is Continue && final(self).values() == s.push(Value::Number(old(self).constants()[c[a + 1] as int]))
                &&& is_op(c, a, Instruction::LoadConstNumW) && a + 3 <= c.len() && le_u16(c, a + 1) < old(self).constants().len()
                    ==> r is Continue && final(self).values() == s.push(Value::Number(old(self).constants()[le_u16(c, a + 1) as int]))
                &&& is_op(c, a, Instruction::LoadConstNumWW) && a + 5 <= c.len() && le_u32(c, a + 1) < old(self).constants().len()
                    ==> r is Continue && final(self).values() == s.push(Value::Number(old(self).constants()[le_u32(c, a + 1) as int]))
                &&& is_op(c, a, Instruction::LoadStringLiteral) && a + 9 <= c.len() ==> r is Continue && final(self).values()
                    == s.push(Value::StringLiteral { start_index: le_u32(c, a + 1) as u32, end_index: le_u32(c, a + 5) as u32 })
                    && final(self).at() == a + 9
                &&& is_op(c, a, Instruction::LoadFunction) && a + 5 <= c.len() ==> r is Continue && final(self).values()
                    == s.push(Value::Function { function_index: le_u32(c, a + 1) as u32 })
                &&& is_op(c, a, Instruction::GetLocalW) && a + 3 <= c.len() && le_u16(c, a + 1) < s.len()
                    ==> r is Continue && final(self).values() == s.push(s[le_u16(c, a + 1) as int])
                &&& is_op(c, a, Instruction::SetLocalW) && a + 3 <= c.len() && le_u16(c, a + 1) + 1 < s.len()
                    ==> r is Continue && final(self).values() == s.drop_last().update(le_u16(c, a + 1) as int, s.last())
                &&& is_op(c, a, Instruction::CreateList) ==> r is Continue && final(self).values().drop_last() == s
                    && final(self).values().last() is Heap && final(self).memory().live(final(self).values().last()->Heap_0 as int)
                    && final(self).memory().payload(final(self).values().last()->Heap_0 as int) is List
                    && final(self).memory().payload(final(self).values().last()->Heap_0 as int)->List_0@.len() == 0
                &&& is_op(c, a, Instruction::ListGetIndex) && s.len() >= 2 && s[s.len() - 2] is Heap && old(self).memory().live(s[s.len() - 2]->Heap_0 as int)
                    && old(self).memory().payload(s[s.len() - 2]->Heap_0 as int) is List && s.last() is Number ==> r == (Step::Index {
                        length: old(self).memory().payload(s[s.len() - 2]->Heap_0 as int)->List_0@.len() as usize,
                        number: s.last()->Number_0,
                    }) && final(self).waiting() == (Pending::Index {
                        list: s[s.len() - 2]->Heap_0,
                        length: old(self).memory().payload(s[s.len() - 2]->Heap_0 as int)->List_0@.len() as usize,
                        number: s.last()->Number_0,
                    }) && final(self).values() == s.drop_last().drop_last()
                &&& is_op(c, a, Instruction::ListGetIndex) && s.len() >= 2 && !(s[s.len() - 2] is Heap && old(self).memory().live(
                    s[s.len() - 2]->Heap_0 as int,
                ) && old(self).memory().payload(s[s.len() - 2]->Heap_0 as int) is List) ==> (r is Error && r->Error_0 is TypeError)
                &&& is_op(c, a, Instruction::ListGetIndex) && s.len() >= 2 && !(s.last() is Number) ==> (r is Error
                    && r->Error_0 is TypeError)
                &&& is_op(c, a, Instruction::ListPush) && s.len() >= 2 && s[s.len() - 2] is Heap && old(self).memory().live(s[s.len() - 2]->Heap_0 as int)
                    && old(self).memory().payload(s[s.len() - 2]->Heap_0 as int) is List ==> r is Continue && final(self).values() == s.drop_last()
                    && final(self).memory().payload(s[s.len() - 2]->Heap_0 as int)->List_0@ == old(self).memory().payload(s[s.len() - 2]->Heap_0 as int)->List_0@.push(s.last())
            }),
    {
        let nf = exec.functions.len();
        if nf == 0 {
            return Step::Done;
        }
        let code = &exec.functions[nf - 1].code;
        if self.ip >= code.len() {
            return Step::Done;
        }
        let at = self.ip;
        let invalid = Step::Error(RuntimeError::InvalidBytecode { ip: at });
        let op = match self.read_u8(code) {
            Some(b) => match Instruction::from_byte(b) {
                Some(op) => op,
                None => return invalid,
            },
            None => return invalid,
        };
        match op {
            Instruction::LoadLitNum => {
                let n = match self.read_u8(code) {
                    Some(n) => n,
                    None => return invalid,
                };
                let bits = self.byte_numbers[n as usize];
                self.push(Value::Number(bits));
                Step::Continue
            },
            Instruction::LoadConstNum | Instruction::LoadConstNumW | Instruction::LoadConstNumWW => {
                let index: Option<usize> = if op == Instruction::LoadConstNum {
                    match self.read_u8(code) {
                        Some(b) => Some(b as usize),
                        None => None,
                    }
                } else if op == Instruction::LoadConstNumW {
                    match self.read_u16(code) {
                        Some(b) => Some(b as usize),
                        None => None,
                    }
                } else {
                    match self.read_u32(code) {
                        Some(b) => Some(b as usize),
                        None => None,
                    }
                };
                match index {
                    Some(i) => {
                        if i < self.consts.len() {
                            let bits = self.consts[i];
                            self.push(Value::Number(bits));
                            Step::Continue
                        } else {
                            invalid
                        }
                    },
                    None => invalid,
                }
            },
            Instruction::LoadTrue => {
                self.push(Value::Bool(true));
                Step::Continue
            },
            Instruction::LoadFalse => {
                self.push(Value::Bool(false));
                Step::Continue
            },
            Instruction::LoadNil => {
                self.push(Value::Nil);
                Step::Continue
            },
            Instruction::LoadStringLiteral => {
                let a = match self.read_u32(code) {
                    Some(a) => a,
                    None => return invalid,
                };
                let b = match self.read_u32(code) {
                    Some(b) => b,
                    None => return invalid,
                };
                self.push(Value::StringLiteral { start_index: a, end_index: b });
                Step::Continue
            },
            Instruction::LoadFunction => {
                let i = match self.read_u32(code) {
                    Some(i) => i,
                    None => return invalid,
                };
                self.push(Value::Function { function_index: i });
                Step::Continue
            },
            Instruction::GetLocal | Instruction::GetLocalW => {
                let k: Option<usize> = if op == Instruction::GetLocal {
                    match self.read_u8(code) {
                        Some(b) => Some(b as usize),
                        None => None,
                    }
                } else {
                    match self.read_u16(code) {
                        Some(b) => Some(b as usize),
                        None => None,
                    }
                };
                match k {
                    Some(k) => {
                        if k < self.stack.len() - self.fp {
                            let v = self.stack[self.fp + k];
                            self.push(v);
                            Step::Continue
                        } else {
                            invalid
                        }
                    },
                    None => invalid,
                }
            },
            Instruction::SetLocal | Instruction::SetLocalW => {
                let k: Option<usize> = if op == Instruction::SetLocal {
                    match self.read_u8(code) {
                        Some(b) => Some(b as usize),
                        None => None,
                    }
                } else {
                    match self.read_u16(code) {
                        Some(b) => Some(b as usize),
                        None => None,
                    }
                };
                let v = match self.pop() {
                    Some(v) => v,
                    None => return invalid,
                };
                match k {
                    Some(k) => {
                        if k < self.stack.len() - self.fp {
                            let slot = self.fp + k;
                            let ghost before = self.stack@;
                            self.stack.set(slot, v);
                            assert forall|q: int| 0 <= q < self.stack@.len() implies self.heap.value_ok(
                                #[trigger] self.stack@[q],
                            ) by {
                                if q != slot {
                                    assert(self.stack@[q] == before[q]);
                                }
                            }
                            Step::Continue
                        } else {
                            invalid
                        }
                    },
                    None => invalid,
                }
            },
            Instruction::Dup => {
                match self.pop() {
                    Some(v) => {
                        self.push(v);
                        self.push(v);
                        Step::Continue
                    },
                    None => invalid,
                }
            },
            Instruction::Pop => {
                match self.pop() {
                    Some(_) => Step::Continue,
                    None => invalid,
                }
            },
            Instruction::Add => self.numeric(NumericOp::Add, at, "add expects two numbers"),
            Instruction::Sub => self.numeric(NumericOp::Sub, at, "subtract expects two numbers"),
            Instruction::Mul => self.numeric(NumericOp::Mul, at, "multiply expects two numbers"),
            Instruction::Div => self.numeric(NumericOp::Div, at, "divide expects two numbers"),
            Instruction::Modulo => self.numeric(NumericOp::Modulo, at, "modulo expects two numbers"),
            Instruction::LessThan => self.numeric(NumericOp::Less, at, "'<' expects two numbers"),
            Instruction::LessThanOrEqual => self.numeric(
                NumericOp::LessEqual,
                at,
                "'<=' expects two numbers",
            ),
            Instruction::GreaterThan => self.numeric(NumericOp::Greater, at, "'>' expects two numbers"),
            Instruction::GreaterThanOrEqual => self.numeric(
                NumericOp::GreaterEqual,
                at,
                "'>=' expects two numbers",
            ),
            Instruction::Negate => {
                match self.pop() {
                    Some(Value::Number(n)) => {
                        self.pending = Pending::Number;
                        Step::Numeric { op: NumericOp::Negate, left: n, right: 0 }
                    },
                    Some(_) => Self::type_error("negate expects a number"),
                    None => invalid,
                }
            },
            Instruction::Not => {
                match self.pop() {
                    Some(v) => {
                        let t = v.is_truthy();
                        self.push(Value::Bool(!t));
                        Step::Continue
                    },
                    None => invalid,
                }
            },
            Instruction::Equal => {
                let right = match self.pop() {
                    Some(v) => v,
                    None => return invalid,
                };
                let left = match self.pop() {
                    Some(v) => v,
                    None => return invalid,
                };
                match (left, right) {
                    (Value::Number(l), Value::Number(r)) => {
                        self.pending = Pending::Bool;
                        Step::Numeric { op: NumericOp::Equal, left: l, right: r }
                    },
                    _ => {
                        self.push(Value::Bool(left == right));
                        Step::Continue
                    },
                }
            },
            Instruction::Concat => {
                let right = match self.pop() {
                    Some(v) => v,
                    None => return invalid,
                };
                let left = match self.pop() {
                    Some(v) => v,
                    None => return invalid,
                };
                let mut pieces = self.to_pieces(exec, left);
                let mut more = self.to_pieces(exec, right);
                let ghost p1 = pieces@;
                let ghost p2 = more@;
                pieces.append(&mut more);
                assert(pieces@ == p1 + p2);
                self.pending = Pending::Concat;
                Step::Concat(pieces)
            },
            Instruction::Print => {
                match self.pop() {
                    Some(v) => Step::Print(self.to_pieces(exec, v)),
                    None => invalid,
                }
            },
            Instruction::Jump => {
                match self.read_u32(code) {
                    Some(t) => {
                        self.ip = t as usize;
                        Step::Continue
                    },
                    None => invalid,
                }
            },
            Instruction::JumpIfFalse => {
                let t = match self.read_u32(code) {
                    Some(t) => t,
                    None => return invalid,
                };
                match self.pop() {
                    Some(v) => {
                        if !v.is_truthy() {
                            self.ip = t as usize;
                        }
                        Step::Continue
                    },
                    None => invalid,
                }
            },
            Instruction::CreateList | Instruction::CreateListWithCap | Instruction::CreateListWithCapW => {
                let cap = if op == Instruction::CreateList {
                    Some(0usize)
                } else if op == Instruction::CreateListWithCap {
                    self.read_u8(code).map(|b: u8| b as usize)
                } else {
                    self.read_u16(code).map(|b: u16| b as usize)
                };
                match cap {
                    Some(cap) => {
                        let list = self.heap.alloc_list(self.stack.as_slice(), cap);
                        self.push(list);
                        Step::Continue
                    },
                    None => invalid,
                }
            },
            Instruction::ListPush => {
                let v = match self.pop() {
                    Some(v) => v,
                    None => return invalid,
                };
                let n = self.stack.len();
                if n <= self.fp {
                    return invalid;
                }
                match self.stack[n - 1] {
                    Value::Heap(i) => {
                        let ghost before = self.heap;
                        if self.heap.list_push(i, v) {
                            assert forall|q: int| 0 <= q < self.stack@.len() implies self.heap.value_ok(
                                #[trigger] self.stack@[q],
                            ) by {
                                assert(before.value_ok(self.stack@[q]));
                            }
                            Step::Continue
                        } else {
                            Self::type_error("tried to push an element to a non-list")
                        }
                    },
                    _ => Self::type_error("tried to push an element to a non-list"),
                }
            },
            Instruction::ListGetIndex => {
                let index = match self.pop() {
                    Some(v) => v,
                    None => return invalid,
                };
                let list = match self.pop() {
                    Some(v) => v,
                    None => return invalid,
                };
                match list {
                    Value::Heap(i) => match self.heap.list_len(i) {
                        Some(length) => match index {
                            Value::Number(number) => {
                                self.pending = Pending::Index { list: i, length, number };
                                Step::Index { length, number }
                            },
                            _ => Self::type_error("[] expects a number"),
                        },
                        None => Self::type_error("[] expects a list"),
                    },
                    _ => Self::type_error("[] expects a list"),
                }
            },
            Instruction::Invoke | Instruction::Return | Instruction::LoadReturnAdress => {
                Step::Error(RuntimeError::NotImplemented { ip: at })
            },
        }
    }

    /// Takes the result of a numeric step that gives a number.
    pub fn resume_number(&mut self, bits: u64)
        requires
            old(self).wf(),
            old(self).waiting() == Pending::Number,
        ensures
            final(self).wf(),
            final(self).waiting() == Pending::Nothing,
            final(self).values() == old(self).values().push(Value::Number(bits)),
    {
        self.pending = Pending::Nothing;
        self.push(Value::Number(bits));
    }

    /// Takes the result of a comparison step.
    pub fn resume_bool(&mut self, b: bool)
        requires
            old(self).wf(),
            old(self).waiting() == Pending::Bool,
        ensures
            final(self).wf(),
            final(self).waiting() == Pending::Nothing,
            final(self).values() == old(self).values().push(Value::Bool(b)),
    {
        self.pending = Pending::Nothing;
        self.push(Value::Bool(b));
    }

    /// Takes the text of a concatenation and pushes it as a heap string.
    pub fn resume_concat(&mut self, text: Vec<char>)
        requires
            old(self).wf(),
            old(self).waiting() == Pending::Concat,
        ensures
            final(self).wf(),
            final(self).waiting() == Pending::Nothing,
            final(self).values().len() == old(self).values().len() + 1,
            final(self).values().drop_last() == old(self).values(),
            final(self).values().last() is Heap,
            final(self).memory().live(final(self).values().last()->Heap_0 as int),
            final(self).memory().payload(final(self).values().last()->Heap_0 as int) matches HeapValue::String(t)
                && t@ == text@,
    {
        self.pending = Pending::Nothing;
        let ghost text_view = text@;
        let s = self.heap.alloc_string(self.stack.as_slice(), text);
        assert forall|q: int| 0 <= q < self.stack@.len() implies self.heap.value_ok(#[trigger] self.stack@[q]) by {
        }
        self.push(s);
        assert(self.stack@.drop_last() =~= old(self).stack@);
    }

    /// Takes the index for a subscript: the element is pushed, or an index
    /// that the host found out of range is reported.
    pub fn resume_index(&mut self, index: Option<usize>) -> (r: Result<(), RuntimeError>)
        requires
            old(self).wf(),
            old(self).waiting() is Index,
        ensures
            final(self).wf(),
            final(self).waiting() == Pending::Nothing,
            r is Ok <==> (index matches Some(k) && k < old(self).waiting()->length),
            r is Ok ==> final(self).values() == old(self).values().push(
                old(self).memory().payload(old(self).waiting()->list as int)->List_0@[index->Some_0 as int],
            ),
            r is Err ==> final(self).values() == old(self).values(),
            r matches Err(e) ==> e is IndexOutOfBounds,
            r matches Err(RuntimeError::IndexOutOfBounds { index: i, length: n }) ==> i == old(self).waiting()->number
                && n == old(self).waiting()->length,
    {
        let (list, length, number) = match self.pending {
            Pending::Index { list, length, number } => (list, length, number),
            _ => (0, 0, 0),
        };
        self.pending = Pending::Nothing;
        match index {
            Some(k) => {
                if k < length {
                    match self.heap.list_get(list, k) {
                        Some(v) => {
                            self.push(v);
                            Ok(())
                        },
                        None => Err(RuntimeError::IndexOutOfBounds { index: number, length }),
                    }
                } else {
                    Err(RuntimeError::IndexOutOfBounds { index: number, length })
                }
            },
            None => Err(RuntimeError::IndexOutOfBounds { index: number, length }),
        }
    }
}

} // verus!

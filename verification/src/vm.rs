use vstd::prelude::*;

use crate::compiler::{spec_compile, Compiler};
use crate::num::{num_add_of, num_div_of, num_mul_of, num_sub_of, spec_num_neg, num_add, num_div,
    num_mul, num_sub, num_neg};
use crate::opcode::{OpCode, SpecOp};
use crate::text::str_eq;
use crate::value::{spec_falsey, spec_value_eq, spec_value_gt, spec_value_lt, value_eq, value_gt,
    value_lt, Obj, SpecValue, Value};

verus! {

/// The two ways a run can fail: the source did not compile, or an instruction
/// met operands it cannot act on.
#[derive(Debug, Clone, Copy, PartialEq, Eq, Structural)]
pub enum VMError {
    CompileTime,
    Runtime,
}

/// Mathematical image of the machine: the instructions, the instruction
/// pointer, the operand stack, the global bindings, and the values printed so
/// far.
#[verifier::ext_equal]
pub struct VmState {
    pub chunks: Seq<SpecOp>,
    pub index: nat,
    pub stack: Seq<SpecValue>,
    pub globals: Map<Seq<char>, SpecValue>,
    pub output: Seq<SpecValue>,
}

/// The map that a list of bindings denotes; a later entry for the same name
/// wins.
pub open spec fn globals_view(entries: Seq<(String, Value)>) -> Map<Seq<char>, SpecValue>
    decreases entries.len(),
{
    if entries.len() == 0 {
        Map::empty()
    } else {
        globals_view(entries.drop_last()).insert(entries.last().0@, entries.last().1@)
    }
}

pub open spec fn map_get_opt(m: Map<Seq<char>, SpecValue>, k: Seq<char>) -> Option<SpecValue> {
    if m.contains_key(k) {
        Option::Some(m[k])
    } else {
        Option::None
    }
}

/// How many operands an instruction takes off the stack.
pub open spec fn op_pops(op: SpecOp) -> nat {
    match op {
        SpecOp::Constant(_) => 0,
        SpecOp::Not => 1,
        SpecOp::Negate => 1,
        SpecOp::Print => 1,
        SpecOp::Return => 0,
        SpecOp::Nil => 0,
        SpecOp::True => 0,
        SpecOp::False => 0,
        SpecOp::Equal => 2,
        SpecOp::Greater => 2,
        SpecOp::Less => 2,
        SpecOp::Add => 2,
        SpecOp::Subtract => 2,
        SpecOp::Multiply => 2,
        SpecOp::Divide => 2,
        SpecOp::Pop => 1,
        SpecOp::DefineGlobal(_) => 1,
        SpecOp::GetGlobal(_) => 0,
        SpecOp::SetGlobal(_) => 1,
    }
}

/// How an instruction changes the stack height when it succeeds.
pub open spec fn op_net(op: SpecOp) -> int {
    match op {
        SpecOp::Constant(_) => 1,
        SpecOp::Not => 0,
        SpecOp::Negate => 0,
        SpecOp::Print => -1,
        SpecOp::Return => 0,
        SpecOp::Nil => 1,
        SpecOp::True => 1,
        SpecOp::False => 1,
        SpecOp::Equal => -1,
        SpecOp::Greater => -1,
        SpecOp::Less => -1,
        SpecOp::Add => -1,
        SpecOp::Subtract => -1,
        SpecOp::Multiply => -1,
        SpecOp::Divide => -1,
        SpecOp::Pop => -1,
        SpecOp::DefineGlobal(_) => -1,
        SpecOp::GetGlobal(_) => 1,
        SpecOp::SetGlobal(_) => 0,
    }
}

/// The stack height change that the first `i` instructions make together.
pub open spec fn netsum(chunks: Seq<SpecOp>, i: int) -> int
    decreases i,
{
    if i <= 0 {
        0
    } else {
        netsum(chunks, i - 1) + op_net(chunks[i - 1])
    }
}

/// Every instruction finds the operands it needs on a stack that started
/// empty; a sequence the compiler emits satisfies this.
pub open spec fn stack_ok(chunks: Seq<SpecOp>) -> bool {
    forall|i: int|
        0 <= i < chunks.len() ==> netsum(chunks, i) >= op_pops(#[trigger] chunks[i])
}

/// What one instruction does to the machine, the instruction pointer aside.
pub enum SpecExec {
    Next(VmState),
    Halt(VmState),
    Fail(VmState, Seq<char>),
}

pub open spec fn undefined_variable_msg(n: Seq<char>) -> Seq<char> {
    "Undefined variable '"@ + n + "'"@
}

/// Dispatch of one instruction against the stack and the globals.
pub open spec fn spec_step(st: VmState, op: SpecOp) -> SpecExec {
    let len = st.stack.len();
    match op {
        SpecOp::Constant(v) => SpecExec::Next(VmState { stack: st.stack.push(v), ..st }),
        SpecOp::Nil => SpecExec::Next(VmState { stack: st.stack.push(SpecValue::Nil), ..st }),
        SpecOp::True => SpecExec::Next(
            VmState { stack: st.stack.push(SpecValue::Bool(true)), ..st },
        ),
        SpecOp::False => SpecExec::Next(
            VmState { stack: st.stack.push(SpecValue::Bool(false)), ..st },
        ),
        SpecOp::Not => if len >= 1 {
            let v = st.stack.last();
            SpecExec::Next(
                VmState {
                    stack: st.stack.drop_last().push(SpecValue::Bool(spec_falsey(v))),
                    ..st
                },
            )
        } else {
            SpecExec::Fail(st, "stack underflow"@)
        },
        SpecOp::Negate => if len >= 1 {
            let v = st.stack.last();
            match v {
                SpecValue::Number(b) => SpecExec::Next(
                    VmState {
                        stack: st.stack.drop_last().push(SpecValue::Number(spec_num_neg(b))),
                        ..st
                    },
                ),
                _ => SpecExec::Fail(
                    VmState { stack: st.stack.drop_last(), ..st },
                    "Operand must be a number."@,
                ),
            }
        } else {
            SpecExec::Fail(st, "stack underflow"@)
        },
        SpecOp::Add | SpecOp::Subtract | SpecOp::Multiply | SpecOp::Divide => if len >= 2 {
            let a = st.stack[len - 2];
            let b = st.stack.last();
            let rest = st.stack.drop_last().drop_last();
            match (a, b) {
                (SpecValue::Number(x), SpecValue::Number(y)) => {
                    let bits = match op {
                        SpecOp::Add => num_add_of(x, y),
                        SpecOp::Subtract => num_sub_of(x, y),
                        SpecOp::Multiply => num_mul_of(x, y),
                        _ => num_div_of(x, y),
                    };
                    SpecExec::Next(VmState { stack: rest.push(SpecValue::Number(bits)), ..st })
                },
                (SpecValue::Str(x), SpecValue::Str(y)) => if op == SpecOp::Add {
                    SpecExec::Next(VmState { stack: rest.push(SpecValue::Str(x + y)), ..st })
                } else {
                    SpecExec::Fail(
                        VmState { stack: rest, ..st },
                        "Operands must be two numbers or two strings."@,
                    )
                },
                _ => SpecExec::Fail(
                    VmState { stack: rest, ..st },
                    "Operands must be two numbers or two strings."@,
                ),
            }
        } else {
            SpecExec::Fail(st, "stack underflow"@)
        },
        SpecOp::Equal | SpecOp::Greater | SpecOp::Less => if len >= 2 {
            let a = st.stack[len - 2];
            let b = st.stack.last();
            let rest = st.stack.drop_last().drop_last();
            let r = match op {
                SpecOp::Equal => spec_value_eq(a, b),
                SpecOp::Greater => spec_value_gt(a, b),
                _ => spec_value_lt(a, b),
            };
            SpecExec::Next(VmState { stack: rest.push(SpecValue::Bool(r)), ..st })
        } else {
            SpecExec::Fail(st, "stack underflow"@)
        },
        SpecOp::Print => if len >= 1 {
            SpecExec::Next(
                VmState {
                    stack: st.stack.drop_last(),
                    output: st.output.push(st.stack.last()),
                    ..st
                },
            )
        } else {
            SpecExec::Fail(st, "stack underflow"@)
        },
        SpecOp::Pop => if len >= 1 {
            SpecExec::Next(VmState { stack: st.stack.drop_last(), ..st })
        } else {
            SpecExec::Fail(st, "stack underflow"@)
        },
        SpecOp::DefineGlobal(n) => if len >= 1 {
            SpecExec::Next(
                VmState {
                    stack: st.stack.drop_last(),
                    globals: st.globals.insert(n, st.stack.last()),
                    ..st
                },
            )
        } else {
            SpecExec::Fail(st, "stack underflow"@)
        },
        SpecOp::GetGlobal(n) => if st.globals.contains_key(n) {
            SpecExec::Next(VmState { stack: st.stack.push(st.globals[n]), ..st })
        } else {
            SpecExec::Fail(st, undefined_variable_msg(n))
        },
        SpecOp::SetGlobal(n) => if len >= 1 {
            if st.globals.contains_key(n) {
                SpecExec::Next(VmState { globals: st.globals.insert(n, st.stack.last()), ..st })
            } else {
                SpecExec::Fail(st, undefined_variable_msg(n))
            }
        } else {
            SpecExec::Fail(st, "stack underflow"@)
        },
        SpecOp::Return => SpecExec::Halt(st),
    }
}

/// Runs the machine to its end: the state where it stopped, and the message
/// of the runtime failure if one stopped it.
pub open spec fn spec_run(st: VmState) -> (VmState, Option<Seq<char>>)
    decreases st.chunks.len() - st.index,
{
    if st.index < st.chunks.len() {
        match spec_step(st, st.chunks[st.index as int]) {
            SpecExec::Next(st1) => if st1.chunks == st.chunks {
                spec_run(VmState { index: st.index + 1, ..st1 })
            } else {
                (st1, Option::None)
            },
            SpecExec::Halt(st1) => (st1, Option::None),
            SpecExec::Fail(st1, msg) => (st1, Option::Some(msg)),
        }
    } else {
        (st, Option::None)
    }
}

/// The machine state a fresh run starts from: compiled instructions, pointer
/// at the start, the stack and globals carried over, output empty.
pub open spec fn run_start(
    src: Seq<char>,
    stack: Seq<SpecValue>,
    globals: Map<Seq<char>, SpecValue>,
) -> VmState {
    VmState { chunks: spec_compile(src).ops, index: 0, stack, globals, output: Seq::empty() }
}

/// Finds the value bound to a name: the latest entry for it, if any.
fn lookup_global(entries: &Vec<(String, Value)>, name: &String) -> (r: Option<Value>)
    ensures
        match r {
            Option::Some(v) => map_get_opt(globals_view(entries@), name@) matches Option::Some(sv)
                && sv == v@,
            Option::None => map_get_opt(globals_view(entries@), name@) is None,
        },
{
    let mut i = entries.len();
    proof {
        assert(entries@.take(entries.len() as int) =~= entries@);
    }
    while i > 0
        invariant
            i <= entries.len(),
            map_get_opt(globals_view(entries@), name@) == map_get_opt(
                globals_view(entries@.take(i as int)),
                name@,
            ),
        decreases i,
    {
        i = i - 1;
        let hit = str_eq(entries[i].0.as_str(), name.as_str());
        proof {
            assert(entries@.take(i + 1).drop_last() =~= entries@.take(i as int));
            assert(entries@.take(i + 1).last() == entries@[i as int]);
        }
        if hit {
            let v = entries[i].1.duplicate();
            proof {
                assert(globals_view(entries@.take(i + 1)) == globals_view(
                    entries@.take(i as int),
                ).insert(entries@[i as int].0@, entries@[i as int].1@));
            }
            return Option::Some(v);
        }
    }
    proof {
        assert(entries@.take(0) =~= Seq::<(String, Value)>::empty());
        assert(globals_view(entries@.take(0)) =~= Map::<Seq<char>, SpecValue>::empty());
    }
    Option::None
}

/// The stack-based machine: instructions, an instruction pointer, an operand
/// stack, the global bindings, the values printed so far, and the message of
/// the last runtime failure.  Globals persist across runs on one machine.
#[derive(Debug)]
pub struct VM {
    pub chunks: Vec<OpCode>,
    pub index: usize,
    pub stack: Vec<Value>,
    pub compiler: Compiler,
    pub globals: Vec<(String, Value)>,
    pub output: Vec<Value>,
    pub runtime_message: Option<String>,
}

impl VM {
    /// Mathematical image of the machine, the compiler aside.
    pub open spec fn st(&self) -> VmState {
        VmState {
            chunks: self.chunks.deep_view(),
            index: self.index as nat,
            stack: self.stack.deep_view(),
            globals: globals_view(self.globals@),
            output: self.output.deep_view(),
        }
    }

    pub fn new() -> (vm: Self)
        ensures
            vm.st().chunks == Seq::<SpecOp>::empty(),
            vm.st().index == 0,
            vm.st().stack == Seq::<SpecValue>::empty(),
            vm.st().globals == Map::<Seq<char>, SpecValue>::empty(),
            vm.st().output == Seq::<SpecValue>::empty(),
            vm.runtime_message is None,
    {
        let vm = VM {
            chunks: Vec::new(),
            index: 0,
            stack: Vec::new(),
            compiler: Compiler::new(),
            globals: Vec::new(),
            output: Vec::new(),
            runtime_message: Option::None,
        };
        proof {
            assert(vm.st().chunks =~= Seq::<SpecOp>::empty());
            assert(vm.st().stack =~= Seq::<SpecValue>::empty());
            assert(vm.st().output =~= Seq::<SpecValue>::empty());
            assert(vm.globals@.take(0) =~= vm.globals@);
            assert(vm.st().globals =~= Map::<Seq<char>, SpecValue>::empty());
        }
        vm
    }

    fn push_value(&mut self, v: Value)
        ensures
            final(self).st() == (VmState { stack: old(self).st().stack.push(v@), ..old(self).st() }),
            final(self).chunks == old(self).chunks,
            final(self).index == old(self).index,
            final(self).compiler == old(self).compiler,
            final(self).runtime_message == old(self).runtime_message,
    {
        self.stack.push(v);
        proof {
            assert(self.st().stack =~= old(self).st().stack.push(v@));
            assert(self.st() =~= (VmState { stack: old(self).st().stack.push(v@), ..old(self).st() }));
        }
    }

    /// Binds a name: a fresh entry that shadows any earlier one.
    fn bind_global(&mut self, name: String, v: Value)
        ensures
            final(self).st() == (VmState {
                globals: old(self).st().globals.insert(name@, v@),
                ..old(self).st()
            }),
            final(self).chunks == old(self).chunks,
            final(self).index == old(self).index,
            final(self).compiler == old(self).compiler,
            final(self).runtime_message == old(self).runtime_message,
    {
        let ghost n = name@;
        let ghost vv = v@;
        self.globals.push((name, v));
        proof {
            assert(self.globals@.drop_last() =~= old(self).globals@);
            assert(self.globals@.last().0@ == n);
            assert(self.globals@.last().1@ == vv);
            assert(globals_view(self.globals@) == globals_view(old(self).globals@).insert(n, vv));
            assert(self.st() =~= (VmState {
                globals: old(self).st().globals.insert(n, vv),
                ..old(self).st()
            }));
        }
    }

    /// Walks the instructions from the start until they end, a `Return`
    /// halts the run, or an instruction fails.
    #[verifier::loop_isolation(false)]
    #[verifier::rlimit(100)]
    #[verifier::spinoff_prover]
    fn run(&mut self) -> (r: Result<(), VMError>)
        requires
            old(self).index == 0,
            stack_ok(old(self).st().chunks),
        ensures
            final(self).st() == spec_run(old(self).st()).0,
            final(self).compiler == old(self).compiler,
            r is Ok <==> spec_run(old(self).st()).1 is None,
            r matches Err(e) ==> e == VMError::Runtime,
            match spec_run(old(self).st()).1 {
                Option::Some(m) => final(self).runtime_message matches Option::Some(s) && s@ == m,
                Option::None => final(self).runtime_message == old(self).runtime_message,
            },
    {
        let ghost st0 = self.st();
        loop
            invariant
                self.st().chunks == st0.chunks,
                self.index <= self.chunks.len(),
                self.st().stack.len() as int == st0.stack.len() + netsum(
                    st0.chunks,
                    self.index as int,
                ),
                spec_run(self.st()) == spec_run(st0),
                self.compiler == old(self).compiler,
                self.runtime_message == old(self).runtime_message,
            decreases self.chunks.len() - self.index,
        {
            if self.index >= self.chunks.len() {
                proof {
                    assert(spec_run(self.st()) == (self.st(), Option::<Seq<char>>::None));
                }
                return Result::Ok(());
            }
            let ghost pre = self.st();
            let ghost opv = pre.chunks[pre.index as int];
            proof {
                assert(netsum(st0.chunks, self.index as int) >= op_pops(opv));
            }
            let op = self.chunks[self.index].duplicate();
            match op {
                OpCode::Constant(v) => {
                    self.push_value(v);
                    self.index = self.index + 1;
                },
                OpCode::Nil => {
                    self.push_value(Value::Nil);
                    self.index = self.index + 1;
                },
                OpCode::True => {
                    self.push_value(Value::Bool(true));
                    self.index = self.index + 1;
                },
                OpCode::False => {
                    self.push_value(Value::Bool(false));
                    self.index = self.index + 1;
                },
                OpCode::Not => {
                    let v = self.stack.pop().unwrap();
                    let f = v.is_falsey();
                    self.push_value(Value::Bool(f));
                    self.index = self.index + 1;
                },
                OpCode::Negate => {
                    let v = self.stack.pop().unwrap();
                    match v {
                        Value::Number(bits) => {
                            self.push_value(Value::Number(num_neg(bits)));
                            self.index = self.index + 1;
                        },
                        _ => {
                            self.runtime_message = Option::Some(
                                String::from_str("Operand must be a number."),
                            );
                            proof {
                                assert(self.st() =~= spec_run(st0).0);
                            }
                            return Result::Err(VMError::Runtime);
                        },
                    }
                },
                OpCode::Add | OpCode::Subtract | OpCode::Multiply | OpCode::Divide => {
                    let is_add = matches!(op, OpCode::Add);
                    let b = self.stack.pop().unwrap();
                    let a = self.stack.pop().unwrap();
                    match (a, b) {
                        (Value::Number(x), Value::Number(y)) => {
                            let bits = match op {
                                OpCode::Add => num_add(x, y),
                                OpCode::Subtract => num_sub(x, y),
                                OpCode::Multiply => num_mul(x, y),
                                _ => num_div(x, y),
                            };
                            self.push_value(Value::Number(bits));
                            self.index = self.index + 1;
                        },
                        (Value::Obj(Obj::String(x)), Value::Obj(Obj::String(y))) => {
                            if is_add {
                                let joined = x.concat(y.as_str());
                                self.push_value(Value::Obj(Obj::String(joined)));
                                self.index = self.index + 1;
                            } else {
                                self.runtime_message = Option::Some(
                                    String::from_str("Operands must be two numbers or two strings."),
                                );
                                proof {
                                    assert(self.st() =~= spec_run(st0).0);
                                }
                                return Result::Err(VMError::Runtime);
                            }
                        },
                        _ => {
                            self.runtime_message = Option::Some(
                                String::from_str("Operands must be two numbers or two strings."),
                            );
                            proof {
                                assert(self.st() =~= spec_run(st0).0);
                            }
                            return Result::Err(VMError::Runtime);
                        },
                    }
                },
                OpCode::Equal => {
                    let b = self.stack.pop().unwrap();
                    let a = self.stack.pop().unwrap();
                    let r = value_eq(&a, &b);
                    self.push_value(Value::Bool(r));
                    self.index = self.index + 1;
                },
                OpCode::Greater => {
                    let b = self.stack.pop().unwrap();
                    let a = self.stack.pop().unwrap();
                    let r = value_gt(&a, &b);
                    self.push_value(Value::Bool(r));
                    self.index = self.index + 1;
                },
                OpCode::Less => {
                    let b = self.stack.pop().unwrap();
                    let a = self.stack.pop().unwrap();
                    let r = value_lt(&a, &b);
                    self.push_value(Value::Bool(r));
                    self.index = self.index + 1;
                },
                OpCode::Print => {
                    let v = self.stack.pop().unwrap();
                    self.output.push(v);
                    proof {
                        assert(self.st().output =~= pre.output.push(pre.stack.last()));
                    }
                    self.index = self.index + 1;
                },
                OpCode::Pop => {
                    let _ = self.stack.pop();
                    self.index = self.index + 1;
                },
                OpCode::DefineGlobal(name) => {
                    let v = self.stack.pop().unwrap();
                    self.bind_global(name, v);
                    self.index = self.index + 1;
                },
                OpCode::GetGlobal(name) => {
                    match lookup_global(&self.globals, &name) {
                        Option::Some(v) => {
                            self.push_value(v);
                            self.index = self.index + 1;
                        },
                        Option::None => {
                            let mut m = String::from_str("Undefined variable '");
                            m.append(name.as_str());
                            m.append("'");
                            proof {
                                assert(m@ =~= undefined_variable_msg(name@));
                            }
                            self.runtime_message = Option::Some(m);
                            proof {
                                assert(self.st() =~= spec_run(st0).0);
                            }
                            return Result::Err(VMError::Runtime);
                        },
                    }
                },
                OpCode::SetGlobal(name) => {
                    match lookup_global(&self.globals, &name) {
                        Option::Some(_) => {
                            let top = self.stack[self.stack.len() - 1].duplicate();
                            self.bind_global(name, top);
                            self.index = self.index + 1;
                        },
                        Option::None => {
                            let mut m = String::from_str("Undefined variable '");
                            m.append(name.as_str());
                            m.append("'");
                            proof {
                                assert(m@ =~= undefined_variable_msg(name@));
                            }
                            self.runtime_message = Option::Some(m);
                            proof {
                                assert(self.st() =~= spec_run(st0).0);
                            }
                            return Result::Err(VMError::Runtime);
                        },
                    }
                },
                OpCode::Return => {
                    proof {
                        assert(spec_run(pre) == (pre, Option::<Seq<char>>::None));
                    }
                    return Result::Ok(());
                },
            }
            proof {
                assert(self.st().chunks == pre.chunks);
                assert(self.st().index == pre.index + 1);
                assert(spec_step(pre, opv) matches SpecExec::Next(n) && (VmState {
                    index: pre.index + 1,
                    ..n
                }) == self.st());
                assert(spec_run(pre) == spec_run(self.st()));
            }
        }
    }

    /// Compiles the text and, when it compiles, runs it from the start.  The
    /// globals persist from earlier runs on this machine; the stack is
    /// whatever earlier runs left (empty, for compiled programs); the output
    /// starts empty.
    pub fn interpret(&mut self, source: &str) -> (r: Result<(), VMError>)
        requires
            source@.len() < usize::MAX,
        ensures
            spec_compile(source@).had_error ==> r == Result::<(), VMError>::Err(
                VMError::CompileTime,
            ) && final(self).st() == old(self).st(),
            !spec_compile(source@).had_error ==> ({
                let start = run_start(source@, old(self).st().stack, old(self).st().globals);
                &&& final(self).st() == spec_run(start).0
                &&& (r is Ok <==> spec_run(start).1 is None)
                &&& (r matches Err(e) ==> e == VMError::Runtime)
                &&& match spec_run(start).1 {
                    Option::Some(m) => final(self).runtime_message matches Option::Some(s) && s@
                        == m,
                    Option::None => final(self).runtime_message is None,
                }
            }),
            final(self).compiler.parser@.diags == spec_compile(source@).diags,
    {
        let compiled = self.compiler.compile(source);
        match compiled {
            Result::Err(_) => {
                proof {
                    assert(self.st() =~= old(self).st());
                    assert(self.compiler.parser@.diags == spec_compile(source@).diags);
                }
                Result::Err(VMError::CompileTime)
            },
            Result::Ok(ops) => {
                self.chunks = ops;
                self.index = 0;
                self.output = Vec::new();
                self.runtime_message = Option::None;
                proof {
                    crate::balance::lemma_compile_stack_ok(source@);
                    assert(self.st().output =~= Seq::<SpecValue>::empty());
                    assert(self.st() =~= run_start(
                        source@,
                        old(self).st().stack,
                        old(self).st().globals,
                    ));
                }
                self.run()
            },
        }
    }
}

} // verus!

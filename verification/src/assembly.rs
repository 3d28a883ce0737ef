//! The abstract instruction set and its rendering into assembly text: a
//! fixed two-line entry header, then one block of lines per instruction in
//! generation order, joined by single line feeds with no trailing separator.

use vstd::prelude::*;
use vstd::string::StringExecFns;

verus! {

/// The system calls an instruction can issue.
pub enum AssemblySysCalls {
    Exit(String),
}

/// Items of the data section, by allocation size.
pub enum StaticAssemblyData {
    /// Define Byte: allocates 1 byte.
    MakeDB(String),
    /// Define Word: allocates 2 bytes.
    MakeDW(String),
    /// Define Doubleword: allocates 4 bytes.
    MakeDD(String),
    /// Define Quadword: allocates 8 bytes.
    MakeDQ(String),
}

/// One target-independent instruction; each is self-contained.
pub enum AssemblyInstruction {
    Syscall(AssemblySysCalls),
    StaticAssemblyData(StaticAssemblyData),
    Add(String, String),
    Sub(String, String),
    Mov(String, String),
    Push(String),
    Pop(String),
}

/// Model of a system call.
pub ghost enum SpecSysCall {
    Exit(Seq<char>),
}

/// Model of a data-section item.
pub ghost enum SpecStaticData {
    MakeDB(Seq<char>),
    MakeDW(Seq<char>),
    MakeDD(Seq<char>),
    MakeDQ(Seq<char>),
}

/// Model of an abstract instruction.
pub ghost enum SpecInstruction {
    Syscall(SpecSysCall),
    StaticAssemblyData(SpecStaticData),
    Add(Seq<char>, Seq<char>),
    Sub(Seq<char>, Seq<char>),
    Mov(Seq<char>, Seq<char>),
    Push(Seq<char>),
    Pop(Seq<char>),
}

impl View for AssemblySysCalls {
    type V = SpecSysCall;

    open spec fn view(&self) -> SpecSysCall {
        match self {
            AssemblySysCalls::Exit(code) => SpecSysCall::Exit(code@),
        }
    }
}

impl View for StaticAssemblyData {
    type V = SpecStaticData;

    open spec fn view(&self) -> SpecStaticData {
        match self {
            StaticAssemblyData::MakeDB(v) => SpecStaticData::MakeDB(v@),
            StaticAssemblyData::MakeDW(v) => SpecStaticData::MakeDW(v@),
            StaticAssemblyData::MakeDD(v) => SpecStaticData::MakeDD(v@),
            StaticAssemblyData::MakeDQ(v) => SpecStaticData::MakeDQ(v@),
        }
    }
}

impl View for AssemblyInstruction {
    type V = SpecInstruction;

    open spec fn view(&self) -> SpecInstruction {
        match self {
            AssemblyInstruction::Syscall(c) => SpecInstruction::Syscall(c@),
            AssemblyInstruction::StaticAssemblyData(d) => SpecInstruction::StaticAssemblyData(d@),
            AssemblyInstruction::Add(a, b) => SpecInstruction::Add(a@, b@),
            AssemblyInstruction::Sub(a, b) => SpecInstruction::Sub(a@, b@),
            AssemblyInstruction::Mov(a, b) => SpecInstruction::Mov(a@, b@),
            AssemblyInstruction::Push(v) => SpecInstruction::Push(v@),
            AssemblyInstruction::Pop(v) => SpecInstruction::Pop(v@),
        }
    }
}

impl DeepView for AssemblyInstruction {
    type V = SpecInstruction;

    open spec fn deep_view(&self) -> SpecInstruction {
        self.view()
    }
}

/// The lines a system call lowers to; exiting sets the syscall number
/// register, then the status register with the literal text verbatim, then
/// issues the trap.
pub open spec fn spec_syscall_lines(c: SpecSysCall) -> Seq<Seq<char>> {
    match c {
        SpecSysCall::Exit(code) => seq!["mov rax, 60"@, "mov rdi, "@ + code, "syscall"@],
    }
}

/// The one line a data-section item lowers to.
pub open spec fn spec_static_data_lines(d: SpecStaticData) -> Seq<Seq<char>> {
    match d {
        SpecStaticData::MakeDB(v) => seq!["var DB "@ + v],
        SpecStaticData::MakeDW(v) => seq!["var DW "@ + v],
        SpecStaticData::MakeDD(v) => seq!["var DD "@ + v],
        SpecStaticData::MakeDQ(v) => seq!["var DQ "@ + v],
    }
}

/// The lines one abstract instruction lowers to, per a fixed, total mapping.
pub open spec fn spec_instruction_lines(i: SpecInstruction) -> Seq<Seq<char>> {
    match i {
        SpecInstruction::Syscall(c) => spec_syscall_lines(c),
        SpecInstruction::StaticAssemblyData(d) => spec_static_data_lines(d),
        SpecInstruction::Add(a, b) => seq!["add "@ + a + ", "@ + b],
        SpecInstruction::Sub(a, b) => seq!["sub "@ + a + ", "@ + b],
        SpecInstruction::Mov(a, b) => seq!["mov "@ + a + ", "@ + b],
        SpecInstruction::Push(v) => seq!["push "@ + v],
        SpecInstruction::Pop(v) => seq!["pop "@ + v],
    }
}

/// All lines of an instruction sequence, in generation order.
pub open spec fn spec_all_lines(instrs: Seq<SpecInstruction>) -> Seq<Seq<char>>
    decreases instrs.len(),
{
    if instrs.len() == 0 {
        Seq::empty()
    } else {
        spec_instruction_lines(instrs[0]) + spec_all_lines(instrs.skip(1))
    }
}

/// The text of a run of lines, each preceded by one line-feed separator.
pub open spec fn spec_prefix_lines(lines: Seq<Seq<char>>) -> Seq<char>
    decreases lines.len(),
{
    if lines.len() == 0 {
        Seq::empty()
    } else {
        seq!['\n'] + lines[0] + spec_prefix_lines(lines.skip(1))
    }
}

pub proof fn lemma_prefix_lines_concat(a: Seq<Seq<char>>, b: Seq<Seq<char>>)
    ensures
        spec_prefix_lines(a + b) == spec_prefix_lines(a) + spec_prefix_lines(b),
    decreases a.len(),
{
    if a.len() == 0 {
        assert(a + b =~= b);
        assert(spec_prefix_lines(a) + spec_prefix_lines(b) =~= spec_prefix_lines(b));
    } else {
        assert((a + b).skip(1) =~= a.skip(1) + b);
        lemma_prefix_lines_concat(a.skip(1), b);
        assert((a + b)[0] == a[0]);
        assert(seq!['\n'] + a[0] + (spec_prefix_lines(a.skip(1)) + spec_prefix_lines(b)) =~= (
        seq!['\n'] + a[0] + spec_prefix_lines(a.skip(1))) + spec_prefix_lines(b));
    }
}

/// The fixed program entry header, as one two-line text.
pub open spec fn spec_header() -> Seq<char> {
    "global _start\n_start:"@
}

/// The whole assembly text: the entry header first, always, then every
/// instruction's lines in order, joined by single line feeds.
pub open spec fn spec_render(instrs: Seq<SpecInstruction>) -> Seq<char> {
    spec_header() + spec_prefix_lines(spec_all_lines(instrs))
}

/// The fixed two-line program entry header.
pub fn get_assembly_header() -> (r: &'static str)
    ensures
        r@ == spec_header(),
{
    "global _start\n_start:"
}

/// The header line that opens the data section.
pub fn get_data_section_header() -> (r: &'static str)
    ensures
        r@ == "section .data"@,
{
    "section .data"
}

impl StaticAssemblyData {
    /// The one assembly line of a data-section item.
    pub fn to_assembly(&self) -> (r: Vec<String>)
        ensures
            r.deep_view() == spec_static_data_lines(self@),
    {
        let mut out: Vec<String> = Vec::new();
        match self {
            StaticAssemblyData::MakeDB(v) => out.push("var DB ".to_owned().concat(v.as_str())),
            StaticAssemblyData::MakeDW(v) => out.push("var DW ".to_owned().concat(v.as_str())),
            StaticAssemblyData::MakeDD(v) => out.push("var DD ".to_owned().concat(v.as_str())),
            StaticAssemblyData::MakeDQ(v) => out.push("var DQ ".to_owned().concat(v.as_str())),
        }
        proof {
            assert(out.deep_view() =~= spec_static_data_lines(self@));
        }
        out
    }
}

impl AssemblySysCalls {
    /// The three assembly lines of a system-call instruction, per the Linux
    /// syscall convention.
    pub fn to_assembly(&self) -> (r: Vec<String>)
        ensures
            r.deep_view() == spec_syscall_lines(self@),
    {
        let mut out: Vec<String> = Vec::new();
        match self {
            AssemblySysCalls::Exit(code) => {
                out.push("mov rax, 60".to_owned());
                out.push("mov rdi, ".to_owned().concat(code.as_str()));
                out.push("syscall".to_owned());
            },
        }
        proof {
            assert(out.deep_view() =~= spec_syscall_lines(self@));
        }
        out
    }
}

impl AssemblyInstruction {
    /// The assembly lines of one abstract instruction.
    pub fn to_assembly(&self) -> (r: Vec<String>)
        ensures
            r.deep_view() == spec_instruction_lines(self@),
    {
        match self {
            AssemblyInstruction::Syscall(call) => call.to_assembly(),
            AssemblyInstruction::StaticAssemblyData(data) => data.to_assembly(),
            AssemblyInstruction::Add(a, b) => {
                let mut out: Vec<String> = Vec::new();
                out.push("add ".to_owned().concat(a.as_str()).concat(", ").concat(b.as_str()));
                proof {
                    assert(out.deep_view() =~= spec_instruction_lines(self@));
                }
                out
            },
            AssemblyInstruction::Sub(a, b) => {
                let mut out: Vec<String> = Vec::new();
                out.push("sub ".to_owned().concat(a.as_str()).concat(", ").concat(b.as_str()));
                proof {
                    assert(out.deep_view() =~= spec_instruction_lines(self@));
                }
                out
            },
            AssemblyInstruction::Mov(a, b) => {
                let mut out: Vec<String> = Vec::new();
                out.push("mov ".to_owned().concat(a.as_str()).concat(", ").concat(b.as_str()));
                proof {
                    assert(out.deep_view() =~= spec_instruction_lines(self@));
                }
                out
            },
            AssemblyInstruction::Push(v) => {
                let mut out: Vec<String> = Vec::new();
                out.push("push ".to_owned().concat(v.as_str()));
                proof {
                    assert(out.deep_view() =~= spec_instruction_lines(self@));
                }
                out
            },
            AssemblyInstruction::Pop(v) => {
                let mut out: Vec<String> = Vec::new();
                out.push("pop ".to_owned().concat(v.as_str()));
                proof {
                    assert(out.deep_view() =~= spec_instruction_lines(self@));
                }
                out
            },
        }
    }
}

/// Renders the instruction sequence into the final assembly text: the fixed
/// entry header first, then each instruction's lines in order, each line
/// preceded by one line feed, with no trailing separator. Writing the text
/// to its destination is the caller's one remaining step.
pub fn render_assembly(instructions: &Vec<AssemblyInstruction>) -> (r: String)
    ensures
        r@ == spec_render(instructions.deep_view()),
{
    let ghost iv = instructions.deep_view();
    let mut out = get_assembly_header().to_owned();
    let mut i: usize = 0;
    proof {
        assert(iv.skip(0) =~= iv);
    }
    while i < instructions.len()
        invariant
            iv == instructions.deep_view(),
            iv.len() == instructions@.len(),
            i <= instructions@.len(),
            out@ + spec_prefix_lines(spec_all_lines(iv.skip(i as int))) == spec_render(iv),
        decreases instructions@.len() - i,
    {
        let lines = (&instructions[i]).to_assembly();
        let ghost lv = lines.deep_view();
        proof {
            assert(iv.skip(i as int)[0] == iv[i as int]);
            assert(iv.skip(i as int).skip(1) =~= iv.skip(i as int + 1));
            lemma_prefix_lines_concat(lv, spec_all_lines(iv.skip(i as int + 1)));
            assert(out@ + (spec_prefix_lines(lv) + spec_prefix_lines(
                spec_all_lines(iv.skip(i as int + 1)),
            )) =~= (out@ + spec_prefix_lines(lv)) + spec_prefix_lines(
                spec_all_lines(iv.skip(i as int + 1)),
            ));
        }
        let mut k: usize = 0;
        proof {
            assert(lv.skip(0) =~= lv);
        }
        while k < lines.len()
            invariant
                lv == lines.deep_view(),
                lv.len() == lines@.len(),
                k <= lines@.len(),
                iv == instructions.deep_view(),
                iv.len() == instructions@.len(),
                i < instructions@.len(),
                (out@ + spec_prefix_lines(lv.skip(k as int))) + spec_prefix_lines(
                    spec_all_lines(iv.skip(i as int + 1)),
                ) == spec_render(iv),
            decreases lines@.len() - k,
        {
            let ghost ob = out@;
            out.append("\n");
            out.append(lines[k].as_str());
            proof {
                reveal_strlit("\n");
                assert("\n"@ =~= seq!['\n']);
                assert(lv.skip(k as int)[0] == lv[k as int]);
                assert(lv.skip(k as int).skip(1) =~= lv.skip(k as int + 1));
                assert(ob + spec_prefix_lines(lv.skip(k as int)) =~= out@ + spec_prefix_lines(
                    lv.skip(k as int + 1),
                ));
            }
            k += 1;
        }
        proof {
            assert(lv.skip(lines@.len() as int) =~= Seq::<Seq<char>>::empty());
            assert(out@ + spec_prefix_lines(Seq::<Seq<char>>::empty()) =~= out@);
        }
        i += 1;
    }
    proof {
        assert(iv.skip(instructions@.len() as int) =~= Seq::<SpecInstruction>::empty());
        assert(out@ + spec_prefix_lines(spec_all_lines(Seq::<SpecInstruction>::empty())) =~= out@);
    }
    out
}

/// A last-in, first-out stack over a growable buffer.
pub struct Stack<T> {
    data: Vec<T>,
}

impl<T> View for Stack<T> {
    type V = Seq<T>;

    closed spec fn view(&self) -> Seq<T> {
        self.data@
    }
}

impl<T> Stack<T> {
    /// An empty stack.
    pub fn new() -> (s: Self)
        ensures
            s@ == Seq::<T>::empty(),
    {
        Stack { data: Vec::new() }
    }

    /// Puts a value on top.
    pub fn push(&mut self, value: T)
        ensures
            final(self)@ == old(self)@.push(value),
    {
        self.data.push(value);
    }

    /// Takes the top value, if any.
    pub fn pop(&mut self) -> (r: Option<T>)
        ensures
            match r {
                Some(v) => old(self)@.len() > 0 && v == old(self)@.last() && final(self)@ == old(
                    self,
                )@.drop_last(),
                None => old(self)@.len() == 0 && final(self)@ == old(self)@,
            },
    {
        self.data.pop()
    }
}

} // verus!

use vstd::prelude::*;
use vstd::string::*;
use std::io::Write;
use crate::chunk::{Chunk, OpCode};
use crate::text::{dec_rep, dec_string, pad_left, pad_left_str, pad_right, pad_right_str, texts_of};

verus! {

/// The mnemonic the disassembler prints for an instruction.
pub open spec fn mnemonic(op: OpCode) -> Seq<char> {
    match op {
        OpCode::Return => "OP_RETURN"@,
        OpCode::Constant(_) => "OP_CONSTANT"@,
        OpCode::Negate => "OP_NEGATE"@,
        OpCode::Add => "OP_ADD"@,
        OpCode::Subtract => "OP_SUBTRACT"@,
        OpCode::Multiply => "OP_MULTIPLY"@,
        OpCode::Divide => "OP_DIVIDE"@,
    }
}

/// The line-number field of a disassembled instruction: the source line
/// right-aligned to four columns, or the `   | ` placeholder when the
/// instruction shares its line with the instruction before it.
pub open spec fn line_field(lines: Seq<u16>, offset: nat) -> Seq<char> {
    if 0 < offset && lines[offset as int] == lines[offset as int - 1] {
        "   | "@
    } else {
        pad_left(dec_rep(lines[offset as int] as nat), 4, ' ') + " "@
    }
}

/// One disassembled instruction line: the offset zero-filled to four
/// columns, the line field, then the mnemonic — and for `Constant` the pool
/// index right-aligned to four columns and the rendered value in quotes.
pub open spec fn instruction_line(
    code: Seq<OpCode>,
    lines: Seq<u16>,
    offset: nat,
    val: Seq<char>,
) -> Seq<char> {
    let head = pad_left(dec_rep(offset), 4, '0') + " "@ + line_field(lines, offset);
    match code[offset as int] {
        OpCode::Constant(id) => head + pad_right("OP_CONSTANT"@, 16, ' ') + " "@ + pad_left(
            dec_rep(id as nat),
            4,
            ' ',
        ) + " '"@ + val + "'"@,
        op => head + mnemonic(op),
    }
}

/// The value text that belongs to the instruction at `offset`: the rendered
/// pool entry a `Constant` names, empty otherwise or when the index runs
/// past the renderings at hand.
pub open spec fn line_val(code: Seq<OpCode>, texts: Seq<Seq<char>>, offset: nat) -> Seq<char> {
    match code[offset as int] {
        OpCode::Constant(id) => if (id as nat) < texts.len() {
            texts[id as int]
        } else {
            Seq::empty()
        },
        _ => Seq::empty(),
    }
}

/// The header line of a chunk's disassembly.
pub open spec fn header_line(name: Seq<char>) -> Seq<char> {
    "== "@ + name + " =="@
}

/// The text of the instruction at `offset`; `val` is the rendering of the
/// constant the instruction names, and is ignored for instructions without
/// one.
pub fn instruction_text(ch: &Chunk, offset: usize, val: &str) -> (r: String)
    requires
        ch.wf(),
        offset < ch.code@.len(),
    ensures
        r@ == instruction_line(ch.code@, ch.lines@, offset as nat, val@),
{
    proof {
        reveal_strlit("0");
        reveal_strlit(" ");
    }
    let mut s = pad_left_str(dec_string(offset).as_str(), 4, "0");
    s.append(" ");
    if 0 < offset && ch.lines[offset] == ch.lines[offset - 1] {
        s.append("   | ");
    } else {
        let lf = pad_left_str(dec_string(ch.lines[offset] as usize).as_str(), 4, " ");
        s.append(lf.as_str());
        s.append(" ");
    }
    match ch.code[offset] {
        OpCode::Constant(id) => {
            let mn = pad_right_str("OP_CONSTANT", 16, " ");
            s.append(mn.as_str());
            s.append(" ");
            let ix = pad_left_str(dec_string(id as usize).as_str(), 4, " ");
            s.append(ix.as_str());
            s.append(" '");
            s.append(val);
            s.append("'");
        },
        OpCode::Return => s.append("OP_RETURN"),
        OpCode::Negate => s.append("OP_NEGATE"),
        OpCode::Add => s.append("OP_ADD"),
        OpCode::Subtract => s.append("OP_SUBTRACT"),
        OpCode::Multiply => s.append("OP_MULTIPLY"),
        OpCode::Divide => s.append("OP_DIVIDE"),
    }
    proof {
        assert(s@ =~= instruction_line(ch.code@, ch.lines@, offset as nat, val@));
    }
    s
}

fn const_text<'v>(ch: &Chunk, offset: usize, vals: &'v Vec<String>) -> (r: &'v str)
    requires
        ch.wf(),
        offset < ch.code@.len(),
    ensures
        r@ == line_val(ch.code@, texts_of(vals@), offset as nat),
{
    proof {
        reveal_strlit("");
    }
    let r = match ch.code[offset] {
        OpCode::Constant(id) => {
            if (id as usize) < vals.len() {
                vals[id as usize].as_str()
            } else {
                ""
            }
        },
        _ => "",
    };
    proof {
        assert(r@ =~= line_val(ch.code@, texts_of(vals@), offset as nat));
    }
    r
}

/// The complete disassembly of a chunk, one string per output line: the
/// header first, then exactly one line per instruction, in order. `vals`
/// renders the constant pool, entry by entry.
#[verifier::loop_isolation(false)]
pub fn chunk_text(ch: &Chunk, name: &str, vals: &Vec<String>) -> (out: Vec<String>)
    requires
        ch.wf(),
    ensures
        out@.len() == 1 + ch.code@.len(),
        out@[0]@ == header_line(name@),
        forall|i: int|
            0 <= i < ch.code@.len() ==> (#[trigger] out@[i + 1])@ == instruction_line(
                ch.code@,
                ch.lines@,
                i as nat,
                line_val(ch.code@, texts_of(vals@), i as nat),
            ),
{
    let mut out: Vec<String> = Vec::new();
    let mut h = String::from_str("== ");
    h.append(name);
    h.append(" ==");
    proof {
        assert(h@ =~= header_line(name@));
    }
    out.push(h);
    let mut offset: usize = 0;
    while offset < ch.code.len()
        invariant
            offset <= ch.code@.len(),
            out@.len() == 1 + offset,
            out@[0]@ == header_line(name@),
            forall|i: int|
                0 <= i < offset ==> (#[trigger] out@[i + 1])@ == instruction_line(
                    ch.code@,
                    ch.lines@,
                    i as nat,
                    line_val(ch.code@, texts_of(vals@), i as nat),
                ),
        decreases ch.code@.len() - offset,
    {
        let val = const_text(ch, offset, vals);
        let line = instruction_text(ch, offset, val);
        out.push(line);
        offset = offset + 1;
    }
    out
}

/// Writes one diagnostic line to standard error. Relies on writeln! to
/// standard error.
#[verifier::external_body]
fn eprint_line(s: &str) {
    let _ = writeln!(std::io::stderr(), "{}", s);
}

/// Prints the instruction at `offset` to standard error and returns the
/// offset of the next instruction: every instruction here is one slot wide,
/// so disassembly offsets grow by exactly one. `val` renders the constant a
/// `Constant` instruction names.
pub fn disassemble_instruction(ch: &Chunk, offset: usize, val: &str) -> (next: usize)
    requires
        ch.wf(),
        offset < ch.code@.len(),
    ensures
        next == offset + 1,
{
    let line = instruction_text(ch, offset, val);
    eprint_line(line.as_str());
    let n = ch.code.len();
    proof {
        assert(offset < n);
    }
    offset + 1
}

/// Prints a chunk's full disassembly to standard error: the header, then
/// every instruction in order. `vals` renders the constant pool, entry by
/// entry.
pub fn disassemble_chunk(ch: &Chunk, name: &str, vals: &Vec<String>)
    requires
        ch.wf(),
{
    let lines = chunk_text(ch, name, vals);
    let mut i: usize = 0;
    while i < lines.len()
        decreases lines@.len() - i,
    {
        eprint_line(lines[i].as_str());
        i = i + 1;
    }
}

/// The operand stack rendered bottom to top for one trace line: ten leading
/// blanks, then each value in `[ ... ]` brackets.
pub open spec fn stack_line(texts: Seq<Seq<char>>) -> Seq<char>
    decreases texts.len(),
{
    if texts.len() == 0 {
        "          "@
    } else {
        stack_line(texts.drop_last()) + "[ "@ + texts.last() + " ]"@
    }
}

/// Builds one trace line showing the operand stack, bottom first; `vals`
/// renders the stack's values in order.
#[verifier::loop_isolation(false)]
pub fn stack_text(vals: &Vec<String>) -> (r: String)
    ensures
        r@ == stack_line(texts_of(vals@)),
{
    let mut s = String::from_str("          ");
    proof {
        assert(texts_of(vals@).take(0) =~= Seq::<Seq<char>>::empty());
        assert(s@ =~= stack_line(texts_of(vals@).take(0)));
    }
    let mut i: usize = 0;
    while i < vals.len()
        invariant
            i <= vals@.len(),
            s@ == stack_line(texts_of(vals@).take(i as int)),
        decreases vals@.len() - i,
    {
        s.append("[ ");
        s.append(vals[i].as_str());
        s.append(" ]");
        i = i + 1;
        proof {
            let t = texts_of(vals@);
            assert(t.take(i as int).drop_last() =~= t.take(i as int - 1));
            assert(t.take(i as int).last() == t[i as int - 1]);
            assert(s@ =~= stack_line(t.take(i as int)));
        }
    }
    proof {
        assert(texts_of(vals@).take(vals@.len() as int) =~= texts_of(vals@));
    }
    s
}

/// Round trip from building to disassembly: the line for the instruction at
/// `offset` opens with that offset, zero-filled to four columns — so over a
/// full disassembly the reported offsets climb by exactly one slot, the
/// width of every instruction, while `chunk_text` reports one line per
/// instruction plus the header.
pub proof fn lemma_line_opens_with_offset(
    code: Seq<OpCode>,
    lines: Seq<u16>,
    offset: nat,
    val: Seq<char>,
)
    requires
        offset < code.len(),
    ensures
        ({
            let off = pad_left(dec_rep(offset), 4, '0');
            instruction_line(code, lines, offset, val).take(off.len() as int) == off
        }),
{
    let off = pad_left(dec_rep(offset), 4, '0');
    assert(instruction_line(code, lines, offset, val).take(off.len() as int) =~= off);
}

} // verus!

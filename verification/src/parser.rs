//! The emitter: consumes the statement tokens in order, maintains the
//! symbol table ("heap") of declared variables, and produces the whole
//! assembly text: a global-entry declaration, the data section, the
//! entry-point label, and the code section, in that fixed order.

use vstd::prelude::*;

use crate::text::{dec_of, usize_to_dec};
use crate::text::str_eq;
use vstd::string::StringSliceAdditionalSpecFns;
use crate::tokenizer::{StmtModel, Tokens, VarData, VarModel, VarTypes, token_views};

verus! {

/// The emitter's running state: the data section text, the code section
/// text, and the symbol table, in declaration order.
pub struct EmitState {
    pub data: Seq<char>,
    pub code: Seq<char>,
    pub heap: Seq<VarModel>,
}

pub open spec fn init_state() -> EmitState {
    EmitState { data: Seq::empty(), code: Seq::empty(), heap: Seq::empty() }
}

/// The storage directive of each primitive type: 4-byte, 8-byte, byte
/// sequence, single byte.
pub open spec fn directive_text(t: VarTypes) -> Seq<char> {
    match t {
        VarTypes::Int => "dd"@,
        VarTypes::Float => "dq"@,
        VarTypes::String => "db"@,
        VarTypes::Bool => "db"@,
    }
}

/// One data-section line for a declared variable; string values are wrapped
/// in single quotes.
pub open spec fn decl_line(v: VarModel) -> Seq<char> {
    v.var_name + ": "@ + directive_text(v.var_type) + " "@ + (if v.var_type == VarTypes::String {
        "'"@ + v.var_value + "'"@
    } else {
        v.var_value
    }) + "\n"@
}

/// The three-instruction exit sequence; the code text is embedded verbatim
/// as the syscall argument.
pub open spec fn exit_text(code: Seq<char>) -> Seq<char> {
    "mov rax, 60\nmov rdi, "@ + code + "\nsyscall\n"@
}

/// The write-syscall sequence: the buffer pointer operand followed by the
/// byte count in decimal.
pub open spec fn write_text(ptr: Seq<char>, len: int) -> Seq<char> {
    "mov rax, 1\nmov rdi, 1\nmov rsi, "@ + ptr + "\nmov rdx, "@ + dec_of(len) + "\nsyscall\n"@
}

/// The UTF-8 byte length of a text.
pub open spec fn byte_len(s: Seq<char>) -> int {
    vstd::utf8::encode_utf8(s).len() as int
}

/// The write length for a resolved variable, fixed by its declared type:
/// strings use the byte length of their stored value, the other types their
/// storage size.
pub open spec fn print_len(v: VarModel) -> int {
    match v.var_type {
        VarTypes::String => byte_len(v.var_value),
        VarTypes::Int => 4,
        VarTypes::Float => 8,
        VarTypes::Bool => 1,
    }
}

/// Linear-scan lookup: the first record with the given name wins, so a
/// redeclared name keeps resolving to its first declaration.
pub open spec fn lookup(heap: Seq<VarModel>, name: Seq<char>) -> Option<VarModel>
    decreases heap.len(),
{
    if heap.len() == 0 {
        None
    } else if heap[0].var_name == name {
        Some(heap[0])
    } else {
        lookup(heap.drop_first(), name)
    }
}

/// One token's effect on the emitter state. An exit statement appends the
/// exit sequence but does not end emission; a declaration appends one
/// data-section line and one symbol-table record; a print resolves its
/// operand against the symbol table, falling back to an inline
/// single-quote-wrapped literal of the operand's own length when no variable
/// matches; an arithmetic statement changes nothing.
pub open spec fn emit_step(st: EmitState, t: StmtModel) -> EmitState {
    match t {
        StmtModel::Exit { code } => EmitState {
            data: st.data,
            code: st.code + exit_text(code),
            heap: st.heap,
        },
        StmtModel::Declare { data } => EmitState {
            data: st.data + decl_line(data),
            code: st.code,
            heap: st.heap.push(data),
        },
        StmtModel::Print { operand } => match lookup(st.heap, operand) {
            Some(v) => EmitState {
                data: st.data,
                code: st.code + write_text(v.var_name, print_len(v)),
                heap: st.heap,
            },
            None => EmitState {
                data: st.data,
                code: st.code + write_text("'"@ + operand + "'"@, operand.len() as int),
                heap: st.heap,
            },
        },
        StmtModel::Arithmetic { .. } => st,
    }
}

/// The emitter state after consuming the tokens in order, one pass, no
/// lookahead.
pub open spec fn emit_state(ts: Seq<StmtModel>) -> EmitState
    decreases ts.len(),
{
    if ts.len() == 0 {
        init_state()
    } else {
        emit_step(emit_state(ts.drop_last()), ts.last())
    }
}

/// The whole output: global-entry declaration, data section behind its
/// marker, entry-point label, code section.
pub open spec fn emit_model(ts: Seq<StmtModel>) -> Seq<char> {
    "global _start\n"@ + "section .data\n"@ + emit_state(ts).data + "section .text\n_start:\n"@
        + emit_state(ts).code
}

/// The views of a sequence of owned symbol-table records.
pub open spec fn heap_views(hs: Seq<VarData>) -> Seq<VarModel> {
    hs.map_values(|v: VarData| v@)
}

/// Lookup ignores a prefix that holds no record with the given name.
pub proof fn lemma_lookup_skip(hv: Seq<VarModel>, name: Seq<char>, i: int)
    requires
        0 <= i <= hv.len(),
        forall|j: int| 0 <= j < i ==> hv[j].var_name != name,
    ensures
        lookup(hv, name) == lookup(hv.skip(i), name),
    decreases i,
{
    if i > 0 {
        assert(hv.drop_first() =~= hv.skip(1));
        lemma_lookup_skip(hv.drop_first(), name, i - 1);
        assert(hv.drop_first().skip(i - 1) =~= hv.skip(i));
    } else {
        assert(hv.skip(0) =~= hv);
    }
}

fn directive_str(t: VarTypes) -> (r: &'static str)
    ensures
        r@ == directive_text(t),
{
    match t {
        VarTypes::Int => "dd",
        VarTypes::Float => "dq",
        VarTypes::String => "db",
        VarTypes::Bool => "db",
    }
}

/// First-match linear scan over the symbol table.
fn lookup_exec(heap: &Vec<VarData>, name: &String) -> (r: Option<usize>)
    ensures
        match r {
            Some(idx) => idx < heap@.len() && lookup(heap_views(heap@), name@) == Some(
                heap@[idx as int]@,
            ),
            None => lookup(heap_views(heap@), name@) is None,
        },
{
    let ghost hv = heap_views(heap@);
    let mut i: usize = 0;
    while i < heap.len()
        invariant
            i <= heap@.len(),
            hv == heap_views(heap@),
            forall|j: int| 0 <= j < i ==> hv[j].var_name != name@,
        decreases heap@.len() - i,
    {
        if str_eq(heap[i].var_name.as_str(), name.as_str()) {
            proof {
                lemma_lookup_skip(hv, name@, i as int);
                assert(hv.skip(i as int)[0] == hv[i as int]);
            }
            return Some(i);
        }
        i = i + 1;
    }
    proof {
        lemma_lookup_skip(hv, name@, i as int);
        assert(hv.skip(i as int) =~= Seq::<VarModel>::empty());
    }
    None
}

/// Appends one write-syscall sequence to the code section.
fn append_write(code: &mut String, ptr: &str, len: usize)
    ensures
        final(code)@ == old(code)@ + write_text(ptr@, len as int),
{
    code.append("mov rax, 1\nmov rdi, 1\nmov rsi, ");
    code.append(ptr);
    code.append("\nmov rdx, ");
    let l = usize_to_dec(len);
    code.append(l.as_str());
    code.append("\nsyscall\n");
    proof {
        assert(code@ =~= old(code)@ + write_text(ptr@, len as int));
    }
}

/// Emits the assembly text for a token sequence. The symbol table and both
/// section buffers are local to one invocation, so equal token sequences
/// always yield byte-identical output.
pub fn parse(tokens: Vec<Tokens>) -> (r: String)
    ensures
        r@ == emit_model(token_views(tokens@)),
{
    let ghost tv = token_views(tokens@);
    let mut data: String = String::new();
    let mut code: String = String::new();
    let mut heap: Vec<VarData> = Vec::new();
    let mut i: usize = 0;
    proof {
        assert(tv.take(0) =~= Seq::<StmtModel>::empty());
        assert(heap_views(heap@) =~= Seq::<VarModel>::empty());
    }
    while i < tokens.len()
        invariant
            i <= tokens@.len(),
            tv == token_views(tokens@),
            data@ == emit_state(tv.take(i as int)).data,
            code@ == emit_state(tv.take(i as int)).code,
            heap_views(heap@) == emit_state(tv.take(i as int)).heap,
        decreases tokens@.len() - i,
    {
        let ghost st = emit_state(tv.take(i as int));
        proof {
            assert(tv.take(i as int + 1).drop_last() =~= tv.take(i as int));
            assert(tv.take(i as int + 1).last() == tv[i as int]);
        }
        match &tokens[i] {
            Tokens::Exit { code: c } => {
                code.append("mov rax, 60\nmov rdi, ");
                code.append(c.as_str());
                code.append("\nsyscall\n");
                proof {
                    assert(code@ =~= st.code + exit_text(c@));
                }
            },
            Tokens::Declare { data: d } => {
                data.append(d.var_name.as_str());
                data.append(": ");
                data.append(directive_str(d.var_type));
                data.append(" ");
                if d.var_type == VarTypes::String {
                    data.append("'");
                    data.append(d.var_value.as_str());
                    data.append("'");
                } else {
                    data.append(d.var_value.as_str());
                }
                data.append("\n");
                let ghost heap_old = heap@;
                heap.push(
                    VarData {
                        var_type: d.var_type,
                        var_name: d.var_name.clone(),
                        var_value: d.var_value.clone(),
                    },
                );
                proof {
                    assert(data@ =~= st.data + decl_line(d@));
                    assert(heap_views(heap@) =~= heap_views(heap_old).push(d@));
                }
            },
            Tokens::Print { operand } => {
                match lookup_exec(&heap, operand) {
                    Some(idx) => {
                        let len: usize = match heap[idx].var_type {
                            VarTypes::String => {
                                let vs: &str = heap[idx].var_value.as_str();
                                let l: usize = vs.as_bytes().len();
                                proof {
                                    assert(vs.spec_bytes() == vstd::utf8::encode_utf8(vs@));
                                    assert(vs@ == heap@[idx as int]@.var_value);
                                }
                                l
                            },
                            VarTypes::Int => 4,
                            VarTypes::Float => 8,
                            VarTypes::Bool => 1,
                        };
                        proof {
                            assert(len as int == print_len(heap@[idx as int]@));
                        }
                        append_write(&mut code, heap[idx].var_name.as_str(), len);
                    },
                    None => {
                        let mut ptr: String = String::from_str("'");
                        ptr.append(operand.as_str());
                        ptr.append("'");
                        let len: usize = operand.as_str().unicode_len();
                        append_write(&mut code, ptr.as_str(), len);
                    },
                }
            },
            Tokens::Arithmetic { .. } => {},
        }
        i = i + 1;
    }
    proof {
        assert(tv.take(tokens@.len() as int) =~= tv);
    }
    let mut out: String = String::from_str("global _start\n");
    out.append("section .data\n");
    out.append(data.as_str());
    out.append("section .text\n_start:\n");
    out.append(code.as_str());
    proof {
        assert(out@ =~= emit_model(tv));
    }
    out
}

} // verus!

//! The guarantees the pipeline gives as a whole, stated over the tokenizer
//! and emitter models and proved once and for all.

use vstd::prelude::*;

use crate::parser::{
    decl_line, emit_model, emit_state, lemma_lookup_skip, lookup, print_len, write_text,
};
use crate::text::{find_char, split_lines, split_words};
use crate::tokenizer::{
    let_value_text, line_model, reserved_word, stored_value, tokenize_lines, tokenize_model,
    type_of_text, value_ok, word_or_empty, ErrorModel, StmtModel, VarModel, VarTypes,
};
use crate::utilities::is_var_text;

verus! {

/// Lookup returns the record at the first position that carries the name.
pub proof fn lemma_lookup_first_match(hv: Seq<VarModel>, name: Seq<char>, i: int)
    requires
        0 <= i < hv.len(),
        hv[i].var_name == name,
        forall|j: int| 0 <= j < i ==> hv[j].var_name != name,
    ensures
        lookup(hv, name) == Some(hv[i]),
{
    lemma_lookup_skip(hv, name, i);
    assert(hv.skip(i)[0] == hv[i]);
}

/// A single-line source whose words form a well-formed declaration — the
/// keyword is `let:` followed by a recognized type, the name is a
/// non-reserved identifier, and the value validates for the type — tokenizes
/// to exactly one declaration token, and emitting it produces exactly one
/// data-section entry carrying the type's directive, exactly one new
/// symbol-table record with the declared name and stored value, and no code.
pub proof fn law_let_declaration(
    line: Seq<char>,
    tt: Seq<char>,
    t: VarTypes,
    name: Seq<char>,
    raw: Seq<char>,
)
    requires
        find_char(line, '\n') == -1,
        split_words(line).len() >= 1,
        split_words(line)[0] == "let:"@ + tt,
        type_of_text(tt) == Some(t),
        name == word_or_empty(split_words(line), 1),
        is_var_text(name),
        !reserved_word(name),
        raw == let_value_text(t, split_words(line)),
        value_ok(t, raw),
    ensures
        ({
            let dm = VarModel { var_type: t, var_name: name, var_value: stored_value(t, raw) };
            let ts = seq![StmtModel::Declare { data: dm }];
            tokenize_model(line) == Ok::<Seq<StmtModel>, ErrorModel>(ts) && emit_state(ts).data
                == decl_line(dm) && emit_state(ts).heap == seq![dm] && emit_state(ts).code
                == Seq::<char>::empty()
        }),
{
    let dm = VarModel { var_type: t, var_name: name, var_value: stored_value(t, raw) };
    let ts = seq![StmtModel::Declare { data: dm }];
    reveal_strlit("let:");
    assert(("let:"@ + tt).take(4) =~= "let:"@);
    assert(("let:"@ + tt).skip(4) =~= tt);
    assert(line_model(line) == Ok::<Option<StmtModel>, ErrorModel>(
        Some(StmtModel::Declare { data: dm }),
    ));
    assert(split_lines(line) =~= seq![line]);
    assert(seq![line].drop_first() =~= Seq::<Seq<char>>::empty());
    assert(seq![StmtModel::Declare { data: dm }] + Seq::<StmtModel>::empty() =~= ts);
    assert(seq![line][0] == line);
    assert(tokenize_lines(Seq::<Seq<char>>::empty()) == Ok::<Seq<StmtModel>, ErrorModel>(
        Seq::<StmtModel>::empty(),
    ));
    assert(tokenize_lines(seq![line]) == Ok::<Seq<StmtModel>, ErrorModel>(ts));
    assert(tokenize_model(line) == Ok::<Seq<StmtModel>, ErrorModel>(ts));
    assert(ts.drop_last() =~= Seq::<StmtModel>::empty());
    assert(ts.last() == (StmtModel::Declare { data: dm }));
    assert(emit_state(Seq::<StmtModel>::empty()) == crate::parser::init_state());
    assert(emit_state(ts) == crate::parser::emit_step(crate::parser::init_state(), ts.last()));
    assert(emit_state(ts).data =~= decl_line(dm));
    assert(emit_state(ts).heap =~= seq![dm]);
    assert(emit_state(ts).code =~= Seq::<char>::empty());
}

/// Wherever a declaration token stands in a program, it appends exactly one
/// data-section entry — the record's name, its type's directive, and its
/// stored value — and exactly one new symbol-table record, and emits no
/// code.
pub proof fn law_declaration_appends(ts: Seq<StmtModel>, i: int, dm: VarModel)
    requires
        0 <= i < ts.len(),
        ts[i] == (StmtModel::Declare { data: dm }),
    ensures
        emit_state(ts.take(i + 1)).data == emit_state(ts.take(i)).data + decl_line(dm),
        emit_state(ts.take(i + 1)).heap == emit_state(ts.take(i)).heap.push(dm),
        emit_state(ts.take(i + 1)).code == emit_state(ts.take(i)).code,
{
    assert(ts.take(i + 1).drop_last() =~= ts.take(i));
    assert(ts.take(i + 1).last() == ts[i]);
}

/// A print statement whose operand's first matching record stands at
/// position `i` of the symbol table emits a write referencing that record —
/// its label and its type's length — whatever records follow it: a
/// redeclared name keeps resolving to its first declaration.
pub proof fn law_first_declaration_wins(ts: Seq<StmtModel>, p: int, name: Seq<char>, i: int)
    requires
        0 <= p < ts.len(),
        ts[p] == (StmtModel::Print { operand: name }),
        0 <= i < emit_state(ts.take(p)).heap.len(),
        emit_state(ts.take(p)).heap[i].var_name == name,
        forall|j: int| 0 <= j < i ==> emit_state(ts.take(p)).heap[j].var_name != name,
    ensures
        emit_state(ts.take(p + 1)).code == emit_state(ts.take(p)).code + write_text(
            emit_state(ts.take(p)).heap[i].var_name,
            print_len(emit_state(ts.take(p)).heap[i]),
        ),
        emit_state(ts.take(p + 1)).data == emit_state(ts.take(p)).data,
        emit_state(ts.take(p + 1)).heap == emit_state(ts.take(p)).heap,
{
    let st = emit_state(ts.take(p));
    lemma_lookup_first_match(st.heap, name, i);
    assert(ts.take(p + 1).drop_last() =~= ts.take(p));
    assert(ts.take(p + 1).last() == ts[p]);
}

/// An arithmetic statement is a no-op: it emits nothing and alters neither
/// the symbol table nor either section.
pub proof fn law_arithmetic_changes_nothing(ts: Seq<StmtModel>, i: int)
    requires
        0 <= i < ts.len(),
        ts[i] is Arithmetic,
    ensures
        emit_state(ts.take(i + 1)) == emit_state(ts.take(i)),
{
    assert(ts.take(i + 1).drop_last() =~= ts.take(i));
    assert(ts.take(i + 1).last() == ts[i]);
}

/// A single-line declaration whose name collides with a reserved keyword
/// aborts tokenizing with a reserved-identifier error naming it; no token
/// sequence is produced, so nothing can reach the symbol table or either
/// section.
pub proof fn law_reserved_name_rejected(line: Seq<char>, tt: Seq<char>, t: VarTypes, name: Seq<char>)
    requires
        find_char(line, '\n') == -1,
        split_words(line).len() >= 1,
        split_words(line)[0] == "let:"@ + tt,
        type_of_text(tt) == Some(t),
        name == word_or_empty(split_words(line), 1),
        is_var_text(name),
        reserved_word(name),
    ensures
        tokenize_model(line) == Err::<Seq<StmtModel>, ErrorModel>(
            ErrorModel::ReservedIdentifier { name },
        ),
{
    reveal_strlit("let:");
    assert(("let:"@ + tt).take(4) =~= "let:"@);
    assert(("let:"@ + tt).skip(4) =~= tt);
    assert(line_model(line) == Err::<Option<StmtModel>, ErrorModel>(
        ErrorModel::ReservedIdentifier { name },
    ));
    assert(split_lines(line) =~= seq![line]);
}

/// Tokenizing and emitting is deterministic: two runs over the same source,
/// each with fresh state, yield byte-identical assembly text.
pub proof fn law_same_source_same_assembly(
    src: Seq<char>,
    ts1: Seq<StmtModel>,
    ts2: Seq<StmtModel>,
    out1: Seq<char>,
    out2: Seq<char>,
)
    requires
        tokenize_model(src) == Ok::<Seq<StmtModel>, ErrorModel>(ts1),
        out1 == emit_model(ts1),
        tokenize_model(src) == Ok::<Seq<StmtModel>, ErrorModel>(ts2),
        out2 == emit_model(ts2),
    ensures
        out1 == out2,
{
}

} // verus!

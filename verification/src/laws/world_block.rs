//! The block that is written for a world reads back: its name as the name
//! of the world, and the interfaces it imports as its imports.

use crate::emit::{import_lines, import_world_lines, lines_text};
use crate::parse::{
    first_word, import_of, imports, imports_in_lines, token_len, world_name, world_of_line,
};
use crate::laws::interface_block::{
    lacks, lemma_other_start, lemma_split_lines, lemma_trim_indented,
};
use crate::text::{
    is_whitespace, lemma_leading_space_is, lemma_trailing_space_is, starts_with, trim,
    trim_start,
};
use crate::types::{is_identifier, is_name_char};
use vstd::prelude::*;

verus! {

/// An identifier before white space is the first word of the text.
pub proof fn lemma_first_word(name: Seq<char>, tail: Seq<char>)
    requires
        is_identifier(name),
        tail.len() > 0,
        is_whitespace(tail[0]),
    ensures
        first_word(name + tail) == name,
{
    let s = name + tail;
    assert(s[0] == name[0]);
    assert(is_name_char(name[0]));
    lemma_leading_space_is(s, 0);
    assert(trim_start(s) =~= s);
    lemma_token(name, tail, 0);
    assert(s.skip(0) =~= s);
    assert(s.take(name.len() as int) =~= name);
}

/// From a position within an identifier, the characters up to the white
/// space behind the identifier are no white space.
pub proof fn lemma_token(name: Seq<char>, tail: Seq<char>, from: int)
    requires
        is_identifier(name),
        tail.len() > 0,
        is_whitespace(tail[0]),
        0 <= from <= name.len(),
    ensures
        token_len((name + tail).skip(from)) == name.len() - from,
    decreases name.len() - from,
{
    let s = name + tail;
    let rest = s.skip(from);
    if from < name.len() {
        assert(rest[0] == name[from]);
        assert(is_name_char(name[from]));
        assert(rest.skip(1) =~= s.skip(from + 1));
        lemma_token(name, tail, from + 1);
    } else {
        assert(rest[0] == tail[0]);
    }
}

/// The line that imports an interface named by an identifier is read as
/// the import of that interface.
pub proof fn lemma_import_line(name: Seq<char>)
    requires
        is_identifier(name),
    ensures
        import_of(trim("    import "@ + name + ";"@)) == Some(name),
        lacks("    import "@ + name + ";"@, '\n'),
{
    reveal_strlit("    import ");
    reveal_strlit("import ");
    reveal_strlit(";");
    let body = "import "@ + name + ";"@;
    let raw = "    import "@ + name + ";"@;
    let indent = seq![' ', ' ', ' ', ' '];
    assert(raw =~= indent + body);
    assert(body[0] == 'i');
    assert(body.last() == ';');
    lemma_trim_indented(indent, body);
    assert(body.subrange(0, 7) =~= "import "@);
    assert(body.subrange(body.len() - 1, body.len() as int) =~= ";"@);
    assert(body.subrange(7, body.len() - 1) =~= name);
    assert(is_name_char(name[0]));
    assert(is_name_char(name.last()));
    lemma_leading_space_is(name, 0);
    assert(trim_start(name) =~= name);
    lemma_trailing_space_is(name, 0);
    assert(name.take(name.len() as int) =~= name);
    assert forall|i: int| 0 <= i < raw.len() implies #[trigger] raw[i] != '\n' by {
        if 11 <= i < 11 + name.len() {
            assert(raw[i] == name[i - 11]);
            assert(is_name_char(name[i - 11]));
        }
    }
}

/// The line that opens the block of a world named by an identifier
/// declares that world and imports nothing.
pub proof fn lemma_world_line(name: Seq<char>)
    requires
        is_identifier(name),
    ensures
        world_of_line(trim("world "@ + name + " {"@)) == Some(name),
        import_of(trim("world "@ + name + " {"@)) is None,
        lacks("world "@ + name + " {"@, '\n'),
{
    reveal_strlit("world ");
    reveal_strlit("import ");
    reveal_strlit(" {");
    let line = "world "@ + name + " {"@;
    assert(line[0] == 'w');
    assert(line.last() == '{');
    lemma_trim_indented(Seq::<char>::empty(), line);
    assert(Seq::<char>::empty() + line =~= line);
    assert(line.subrange(0, 6) =~= "world "@);
    assert(line.skip(6) =~= name + " {"@);
    lemma_first_word(name, " {"@);
    lemma_other_start(line, "import "@);
    assert forall|i: int| 0 <= i < line.len() implies #[trigger] line[i] != '\n' by {
        if 6 <= i < 6 + name.len() {
            assert(line[i] == name[i - 6]);
            assert(is_name_char(name[i - 6]));
        }
    }
}

/// The lines that end the block of a world import nothing.
pub proof fn lemma_closing_lines()
    ensures
        import_of(trim("    include process-v1;"@)) is None,
        import_of(trim("}"@)) is None,
        import_of(trim(Seq::<char>::empty())) is None,
        lacks("    include process-v1;"@, '\n'),
        lacks("}"@, '\n'),
{
    reveal_strlit("    include process-v1;");
    reveal_strlit("}");
    reveal_strlit("import ");
    let baseline = "    include process-v1;"@;
    let body = baseline.skip(4);
    let indent = seq![' ', ' ', ' ', ' '];
    assert(baseline =~= indent + body);
    assert(body[0] == 'i');
    assert(body.last() == ';');
    lemma_trim_indented(indent, body);
    if starts_with(body, "import "@) {
        assert(body.subrange(0, 7)[1] == body[1]);
    }
    lemma_trim_indented(Seq::<char>::empty(), "}"@);
    assert(Seq::<char>::empty() + "}"@ =~= "}"@);
    let empty = Seq::<char>::empty();
    lemma_leading_space_is(empty, 0);
    assert(trim_start(empty) =~= empty);
    assert(trim(empty) =~= empty);
}

/// The lines that import interfaces named by identifiers import those
/// interfaces, in order.
pub proof fn lemma_imports_read(before: Seq<Seq<char>>, names: Seq<Seq<char>>)
    requires
        forall|i: int| 0 <= i < names.len() ==> is_identifier(#[trigger] names[i]),
    ensures
        imports_in_lines(before + import_lines(names)) == imports_in_lines(before) + names,
    decreases names.len(),
{
    if names.len() == 0 {
        assert(before + import_lines(names) =~= before);
        assert(imports_in_lines(before) + names =~= imports_in_lines(before));
    } else {
        let init = names.drop_last();
        assert forall|i: int| 0 <= i < init.len() implies is_identifier(#[trigger] init[i]) by {
            assert(init[i] == names[i]);
        }
        lemma_imports_read(before, init);
        lemma_import_line(names.last());
        let all = before + import_lines(names);
        assert(all.drop_last() =~= before + import_lines(init));
        assert(all.last() == "    import "@ + names.last() + ";"@);
        assert((imports_in_lines(before) + init).push(names.last()) =~= imports_in_lines(before)
            + names);
    }
}

/// The block that is written for a world named by an identifier, with
/// imports of interfaces named by identifiers, reads back as that name
/// and those imports.
pub proof fn lemma_world_round_trip(name: Seq<char>, names: Seq<Seq<char>>)
    requires
        is_identifier(name),
        forall|i: int| 0 <= i < names.len() ==> is_identifier(#[trigger] names[i]),
    ensures
        world_name(lines_text(import_world_lines(name, names))) == Some(name),
        imports(lines_text(import_world_lines(name, names))) == names,
{
    let empty = Seq::<char>::empty();
    let head = seq!["world "@ + name + " {"@];
    let body = import_lines(names);
    let foot = seq!["    include process-v1;"@, "}"@];
    let lines = import_world_lines(name, names);
    lemma_world_line(name);
    lemma_closing_lines();
    assert forall|i: int| 0 <= i < lines.len() implies lacks(#[trigger] lines[i], '\n') by {
        if i < 1 {
            assert(lines[i] == head[i]);
        } else if i < 1 + body.len() {
            assert(lines[i] == body[i - 1]);
            lemma_import_line(names[i - 1]);
        } else {
            assert(lines[i] == foot[i - 1 - body.len()]);
        }
    }
    lemma_split_lines(lines);
    let all = lines.push(empty);
    // The first line declares the world.
    assert(all[0] == head[0]);
    // The lines between the first and the last three import the interfaces.
    assert(imports_in_lines(head) =~= Seq::<Seq<char>>::empty()) by {
        assert(head.drop_last() =~= Seq::<Seq<char>>::empty());
        assert(imports_in_lines(head.drop_last()) =~= Seq::<Seq<char>>::empty());
    }
    lemma_imports_read(head, names);
    let upto_body = head + body;
    let upto_baseline = upto_body.push("    include process-v1;"@);
    let upto_brace = upto_baseline.push("}"@);
    assert(upto_baseline.drop_last() =~= upto_body);
    assert(upto_brace.drop_last() =~= upto_baseline);
    assert(upto_brace =~= lines);
    assert(all.drop_last() =~= lines);
    assert(imports_in_lines(upto_baseline) == imports_in_lines(upto_body));
    assert(imports_in_lines(upto_brace) == imports_in_lines(upto_baseline));
    assert(imports_in_lines(all) == imports_in_lines(lines));
    assert(Seq::<Seq<char>>::empty() + names =~= names);
}

} // verus!

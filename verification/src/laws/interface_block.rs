//! The block that is written for an interface reads back as that
//! interface: its routines with their capabilities, and the names of its
//! records and variants.

use crate::emit::{
    all_signature_lines, all_type_def_lines, body_lines, case_line, field_line, idl_parameters,
    interface_lines, interface_text, lines_text, signature_line, signature_lines, tag_line,
    tag_line_if, tag_lines, type_def_head, type_def_lines,
};
use crate::interface::{
    Capability, CapabilitySet, CaseModel, ParameterModel, SignatureModel, TargetForm, TypeDefModel,
};
use crate::laws::declaration::{
    lemma_declared_round_trip, lemma_find_opening, lemma_signature_round_trip,
    well_formed_signature,
};
use crate::laws::type_text::lemma_type_text;
use crate::parse::{
    declared_name, read_interface, read_line, read_lines, signature_shaped, strip_suffix, tag_of,
    Reading,
};
use crate::stubs::capability_name;
use crate::text::{
    find, is_whitespace, lemma_find_from, lemma_leading_space_is, lemma_split_len,
    lemma_trailing_space_is, occurs_at, split, starts_with, trim, trim_start,
};
use crate::types::{idl_text, is_identifier, is_name_char, well_formed};
use vstd::prelude::*;

verus! {

/// The reading after the lines `lines`, begun with the reading `state`.
pub open spec fn read_more(state: Reading, lines: Seq<Seq<char>>) -> Reading
    decreases lines.len(),
{
    if lines.len() == 0 {
        state
    } else {
        read_line(read_more(state, lines.drop_last()), lines.last())
    }
}

/// The reading before any line.
pub open spec fn nothing_read() -> Reading {
    Reading {
        signatures: Seq::empty(),
        type_names: Seq::empty(),
        pending: CapabilitySet::none(),
    }
}

/// Reading lines from the start is reading them from the reading before
/// any line.
pub proof fn lemma_read_from_start(lines: Seq<Seq<char>>)
    ensures
        read_lines(lines) == read_more(nothing_read(), lines),
    decreases lines.len(),
{
    if lines.len() > 0 {
        lemma_read_from_start(lines.drop_last());
    }
}

/// Reading two lists of lines in a row is reading the second from the
/// reading after the first.
pub proof fn lemma_read_concat(state: Reading, a: Seq<Seq<char>>, b: Seq<Seq<char>>)
    ensures
        read_more(state, a + b) == read_more(read_more(state, a), b),
    decreases b.len(),
{
    if b.len() == 0 {
        assert(a + b =~= a);
    } else {
        assert((a + b).drop_last() =~= a + b.drop_last());
        assert((a + b).last() == b.last());
        lemma_read_concat(state, a, b.drop_last());
    }
}

/// `s` holds no `c`.
pub open spec fn lacks(s: Seq<char>, c: char) -> bool {
    forall|i: int| 0 <= i < s.len() ==> #[trigger] s[i] != c
}

/// A text without the separator behind another lengthens the last piece
/// of that other.
pub proof fn lemma_split_extend(a: Seq<char>, b: Seq<char>, sep: char)
    requires
        lacks(b, sep),
    ensures
        split(a + b, sep) == split(a, sep).drop_last().push(split(a, sep).last() + b),
    decreases b.len(),
{
    lemma_split_len(a, sep);
    let pieces = split(a, sep);
    if b.len() == 0 {
        assert(a + b =~= a);
        assert(pieces.last() + b =~= pieces.last());
        assert(pieces.drop_last().push(pieces.last()) =~= pieces);
    } else {
        let init = b.drop_last();
        assert((a + b).drop_last() =~= a + init);
        assert((a + b).last() == b.last());
        assert(b[b.len() - 1] != sep);
        assert forall|i: int| 0 <= i < init.len() implies #[trigger] init[i] != sep by {
            assert(init[i] == b[i]);
        }
        lemma_split_extend(a, init, sep);
        let before = split(a + init, sep);
        assert(before.last() == pieces.last() + init);
        assert(before.last().push(b.last()) =~= pieces.last() + b);
        assert(before.drop_last() =~= pieces.drop_last());
    }
}

/// The text of lines without line feeds splits at its line feeds into
/// those lines, and an empty piece behind the last line feed.
pub proof fn lemma_split_lines(lines: Seq<Seq<char>>)
    requires
        forall|i: int| 0 <= i < lines.len() ==> lacks(#[trigger] lines[i], '\n'),
    ensures
        split(lines_text(lines), '\n') == lines.push(Seq::<char>::empty()),
    decreases lines.len(),
{
    let empty = Seq::<char>::empty();
    if lines.len() == 0 {
        assert(split(lines_text(lines), '\n') =~= lines.push(empty));
    } else {
        let init = lines.drop_last();
        assert forall|i: int| 0 <= i < init.len() implies lacks(#[trigger] init[i], '\n') by {
            assert(init[i] == lines[i]);
        }
        lemma_split_lines(init);
        let a = lines_text(init);
        let b = lines.last();
        lemma_split_extend(a, b, '\n');
        let whole = a + b + seq!['\n'];
        assert(whole.drop_last() =~= a + b);
        assert(whole.last() == '\n');
        assert(init.push(empty).drop_last() =~= init);
        assert(empty + b =~= b);
        assert(init.push(b) =~= lines);
    }
}

/// Spaces before a text with no white space at either end are trimmed
/// away, and nothing else.
pub proof fn lemma_trim_indented(indent: Seq<char>, body: Seq<char>)
    requires
        forall|i: int| 0 <= i < indent.len() ==> #[trigger] indent[i] == ' ',
        body.len() > 0,
        !is_whitespace(body[0]),
        !is_whitespace(body.last()),
    ensures
        trim(indent + body) == body,
{
    let raw = indent + body;
    assert forall|k: int| 0 <= k < indent.len() implies is_whitespace(raw[k]) by {
        assert(raw[k] == indent[k]);
    }
    assert(raw[indent.len() as int] == body[0]);
    lemma_leading_space_is(raw, indent.len() as int);
    assert(trim_start(raw) =~= body);
    lemma_trailing_space_is(body, 0);
    assert(body.take(body.len() as int) =~= body);
}

/// A text that lacks one of the characters of `pat` does not hold `pat`.
pub proof fn lemma_absent(s: Seq<char>, pat: Seq<char>, j: int)
    requires
        0 <= j < pat.len(),
        lacks(s, pat[j]),
    ensures
        find(s, pat) is None,
{
    lemma_find_from(s, pat, 0);
    if find(s, pat) is Some {
        let k = find(s, pat)->0;
        assert(s.subrange(k, k + pat.len())[j] == s[k + j]);
    }
}

/// The words for the three capabilities are words of small letters, no two
/// of them alike.
pub proof fn lemma_capability_names(c: Capability)
    ensures
        capability_name(c).len() > 0,
        forall|i: int|
            0 <= i < capability_name(c).len() ==> 'a' <= #[trigger] capability_name(c)[i] <= 'z',
        "remote"@ != "local"@,
        "remote"@ != "http"@,
        "local"@ != "http"@,
{
    reveal_strlit("remote");
    reveal_strlit("local");
    reveal_strlit("http");
    assert("remote"@.len() == 6 && "local"@.len() == 5 && "http"@.len() == 4);
}

/// The comment line of a capability adds that capability to the pending
/// ones and changes nothing else.
pub proof fn lemma_read_tag(state: Reading, c: Capability)
    ensures
        read_line(state, tag_line(c)) == (Reading { pending: state.pending.with(c), ..state }),
        lacks(tag_line(c), '\n'),
{
    reveal_strlit("    //");
    reveal_strlit("//");
    lemma_capability_names(c);
    let word = capability_name(c);
    let indent = seq![' ', ' ', ' ', ' '];
    let body = "//"@ + word;
    let raw = tag_line(c);
    assert(raw =~= indent + body);
    assert(body[0] == '/');
    assert(body.last() == word.last());
    assert('a' <= word[word.len() - 1] <= 'z');
    lemma_trim_indented(indent, body);
    assert(body.subrange(0, 2) =~= "//"@);
    assert(body.skip(2) =~= word);
    assert('a' <= word[0] <= 'z');
    lemma_leading_space_is(word, 0);
    assert(trim_start(word) =~= word);
    lemma_trailing_space_is(word, 0);
    assert(word.take(word.len() as int) =~= word);
    assert(trim(word) == word);
    assert(tag_of(body) == Some(c));
    assert forall|i: int| 0 <= i < raw.len() implies #[trigger] raw[i] != '\n' by {
        if i >= 6 {
            assert(raw[i] == word[i - 6]);
        }
    }
}

/// Reading one line more.
pub proof fn lemma_read_one(state: Reading, line: Seq<char>)
    ensures
        read_more(state, seq![line]) == read_line(state, line),
        read_more(state, Seq::empty()) == state,
{
    let one = seq![line];
    assert(one.drop_last() =~= Seq::<Seq<char>>::empty());
    assert(read_more(state, one.drop_last()) == state);
    assert(one.last() == line);
}

/// The comment line for `c`, where `caps` holds it, adds `c` to the
/// pending capabilities, and changes nothing else.
pub proof fn lemma_read_tag_if(state: Reading, caps: CapabilitySet, c: Capability)
    ensures
        read_more(state, tag_line_if(caps, c)) == (Reading {
            pending: if caps.includes(c) {
                state.pending.with(c)
            } else {
                state.pending
            },
            ..state
        }),
        forall|i: int|
            0 <= i < tag_line_if(caps, c).len() ==> lacks(#[trigger] tag_line_if(caps, c)[i], '\n'),
{
    lemma_read_one(state, tag_line(c));
    lemma_read_tag(state, c);
}

/// The comment lines of the capabilities `caps`, read where none is
/// pending, leave `caps` pending, and change nothing else.
pub proof fn lemma_read_tags(state: Reading, caps: CapabilitySet)
    requires
        state.pending == CapabilitySet::none(),
    ensures
        read_more(state, tag_lines(caps)) == (Reading { pending: caps, ..state }),
        forall|i: int|
            0 <= i < tag_lines(caps).len() ==> lacks(#[trigger] tag_lines(caps)[i], '\n'),
{
    let a = tag_line_if(caps, Capability::Remote);
    let b = tag_line_if(caps, Capability::Local);
    let c = tag_line_if(caps, Capability::Http);
    lemma_read_tag_if(state, caps, Capability::Remote);
    let first = read_more(state, a);
    lemma_read_tag_if(first, caps, Capability::Local);
    let second = read_more(first, b);
    lemma_read_tag_if(second, caps, Capability::Http);
    lemma_read_concat(state, a, b);
    lemma_read_concat(state, a + b, c);
    let all = tag_lines(caps);
    assert forall|i: int| 0 <= i < all.len() implies lacks(#[trigger] all[i], '\n') by {
        if i < a.len() {
            assert(all[i] == a[i]);
        } else if i < a.len() + b.len() {
            assert(all[i] == b[i - a.len()]);
        } else {
            assert(all[i] == c[i - a.len() - b.len()]);
        }
    }
}

/// The parts of the declaration of `sig` behind the word that opens its
/// parameters.
pub open spec fn declaration_tail(sig: SignatureModel) -> Seq<char> {
    "target: address"@ + idl_parameters(sig.parameters) + ")"@ + (" "@ + "-> "@ + (
    "result<"@ + idl_text(sig.return_type) + ", string>;"@))
}

/// The declaration of a routine is its name, the word that opens its
/// parameters, and the rest.
pub proof fn lemma_declaration_parts(sig: SignatureModel)
    ensures
        signature_line(sig) == sig.name + ": func("@ + declaration_tail(sig),
{
    reveal_strlit(": func(target: address");
    reveal_strlit(": func(");
    reveal_strlit("target: address");
    reveal_strlit(") -> result<");
    reveal_strlit(")");
    reveal_strlit(" ");
    reveal_strlit("-> ");
    reveal_strlit("result<");
    assert(": func(target: address"@ =~= ": func("@ + "target: address"@);
    assert(") -> result<"@ =~= ")"@ + " "@ + "-> "@ + "result<"@);
    assert(signature_line(sig) =~= sig.name + ": func("@ + declaration_tail(sig));
}

/// The declaration of a well-formed routine holds no line feed.
pub proof fn lemma_declaration_lacks_feed(sig: SignatureModel)
    requires
        well_formed_signature(sig),
    ensures
        lacks("    "@ + signature_line(sig), '\n'),
{
    reveal_strlit("    ");
    reveal_strlit(": func(");
    reveal_strlit(")");
    reveal_strlit(" ");
    reveal_strlit("-> ");
    reveal_strlit("result<");
    reveal_strlit(", string>;");
    lemma_declaration_parts(sig);
    lemma_declared_round_trip(sig.parameters);
    lemma_type_text(sig.return_type);
    let raw = "    "@ + signature_line(sig);
    let front = "target: address"@ + idl_parameters(sig.parameters);
    let ret = idl_text(sig.return_type);
    assert(raw =~= "    "@ + sig.name + ": func("@ + front + ")"@ + " "@ + "-> "@ + "result<"@ + ret
        + ", string>;"@);
    assert forall|i: int| 0 <= i < raw.len() implies #[trigger] raw[i] != '\n' by {
        let n = sig.name.len();
        let f = front.len();
        let r = ret.len();
        if i < 4 {
        } else if i < 4 + n {
            assert(raw[i] == sig.name[i - 4]);
            assert(is_name_char(sig.name[i - 4]));
        } else if i < 4 + n + 7 {
        } else if i < 4 + n + 7 + f {
            assert(raw[i] == front[i - 4 - n - 7]);
        } else if i < 4 + n + 7 + f + 5 + 7 {
        } else if i < 4 + n + 7 + f + 5 + 7 + r {
            assert(raw[i] == ret[i - (4 + n + 7 + f + 5 + 7)]);
        } else {
        }
    }
}

/// The declaration of a well-formed routine is, behind its indentation, no
/// comment and not empty, and has the shape of a declaration.
pub proof fn lemma_declaration_shape(sig: SignatureModel)
    requires
        well_formed_signature(sig),
    ensures
        trim("    "@ + signature_line(sig)) == signature_line(sig),
        !starts_with(signature_line(sig), "//"@),
        signature_line(sig).len() > 0,
        signature_shaped(signature_line(sig)),
{
    reveal_strlit("    ");
    reveal_strlit("//");
    reveal_strlit(": func(");
    reveal_strlit(")");
    reveal_strlit(" ");
    reveal_strlit("-> ");
    reveal_strlit(", string>;");
    lemma_declaration_parts(sig);
    let line = signature_line(sig);
    let tail = declaration_tail(sig);
    let front = "target: address"@ + idl_parameters(sig.parameters);
    assert(line[0] == sig.name[0]);
    assert(is_name_char(sig.name[0]));
    assert(line.last() == ';');
    lemma_trim_indented("    "@, line);
    if starts_with(line, "//"@) {
        assert(line.subrange(0, 2)[0] == line[0]);
    }
    lemma_find_opening(sig.name, tail);
    let k = (sig.name.len() + 7 + front.len() + 2) as int;
    assert(line.subrange(k, k + 3) =~= "-> "@);
    assert(occurs_at(line, "-> "@, k));
    lemma_find_from(line, "-> "@, 0);
}

/// The declaration of a well-formed routine, read where capabilities are
/// pending, is kept with those capabilities and the address in its
/// structured form, and leaves no capability pending.
pub proof fn lemma_read_declaration(state: Reading, sig: SignatureModel)
    requires
        well_formed_signature(sig),
        !state.pending.is_empty(),
    ensures
        read_line(state, "    "@ + signature_line(sig)) == (Reading {
            signatures: state.signatures.push(
                SignatureModel {
                    target: Some(TargetForm::Address),
                    capabilities: state.pending,
                    ..sig
                },
            ),
            pending: CapabilitySet::none(),
            ..state
        }),
{
    lemma_declaration_shape(sig);
    let with_pending = SignatureModel { capabilities: state.pending, ..sig };
    assert(signature_line(with_pending) == signature_line(sig));
    assert(well_formed_signature(with_pending));
    lemma_signature_round_trip(with_pending);
}

/// An empty line changes nothing.
pub proof fn lemma_read_empty(state: Reading)
    ensures
        read_line(state, Seq::<char>::empty()) == state,
{
    reveal_strlit("//");
    let empty = Seq::<char>::empty();
    lemma_leading_space_is(empty, 0);
    assert(trim_start(empty) =~= empty);
    assert(trim(empty) =~= empty);
}

/// The routine `sig` as it reads back: with the address in its structured
/// form.
pub open spec fn as_read(sig: SignatureModel) -> SignatureModel {
    SignatureModel { target: Some(TargetForm::Address), ..sig }
}

/// The routines `sigs` as they read back.
pub open spec fn all_as_read(sigs: Seq<SignatureModel>) -> Seq<SignatureModel> {
    Seq::new(sigs.len(), |i: int| as_read(sigs[i]))
}

/// The routine `sig` is well formed and may be reached in one way at
/// least.
pub open spec fn exposed(sig: SignatureModel) -> bool {
    well_formed_signature(sig) && !sig.capabilities.is_empty()
}

/// The lines of a routine that is exposed, read where no capability is
/// pending, add the routine as it reads back, and leave no capability
/// pending.
pub proof fn lemma_read_signature(state: Reading, sig: SignatureModel)
    requires
        exposed(sig),
        state.pending == CapabilitySet::none(),
    ensures
        read_more(state, signature_lines(sig)) == (Reading {
            signatures: state.signatures.push(as_read(sig)),
            ..state
        }),
        forall|i: int|
            0 <= i < signature_lines(sig).len() ==> lacks(#[trigger] signature_lines(sig)[i], '\n'),
{
    let tags = tag_lines(sig.capabilities);
    let declaration = "    "@ + signature_line(sig);
    let empty = Seq::<char>::empty();
    let tail = seq![declaration, empty];
    lemma_read_tags(state, sig.capabilities);
    let tagged = read_more(state, tags);
    lemma_read_concat(state, tags, tail);
    lemma_read_declaration(tagged, sig);
    lemma_declaration_lacks_feed(sig);
    let declared = read_line(tagged, declaration);
    lemma_read_empty(declared);
    assert(tail.drop_last() =~= seq![declaration]);
    lemma_read_one(tagged, declaration);
    assert(read_more(tagged, tail) == read_line(read_more(tagged, tail.drop_last()), tail.last()));
    let all = signature_lines(sig);
    assert forall|i: int| 0 <= i < all.len() implies lacks(#[trigger] all[i], '\n') by {
        if i < tags.len() {
            assert(all[i] == tags[i]);
        } else {
            assert(all[i] == tail[i - tags.len()]);
        }
    }
}

/// The lines of routines that are exposed, read where no capability is
/// pending, add the routines as they read back, in order.
pub proof fn lemma_read_signatures(state: Reading, sigs: Seq<SignatureModel>)
    requires
        forall|i: int| 0 <= i < sigs.len() ==> exposed(#[trigger] sigs[i]),
        state.pending == CapabilitySet::none(),
    ensures
        read_more(state, all_signature_lines(sigs)) == (Reading {
            signatures: state.signatures + all_as_read(sigs),
            ..state
        }),
        forall|i: int|
            0 <= i < all_signature_lines(sigs).len() ==> lacks(
                #[trigger] all_signature_lines(sigs)[i],
                '\n',
            ),
    decreases sigs.len(),
{
    if sigs.len() == 0 {
        assert(state.signatures + all_as_read(sigs) =~= state.signatures);
    } else {
        let init = sigs.drop_last();
        assert forall|i: int| 0 <= i < init.len() implies exposed(#[trigger] init[i]) by {
            assert(init[i] == sigs[i]);
        }
        lemma_read_signatures(state, init);
        let before = read_more(state, all_signature_lines(init));
        lemma_read_signature(before, sigs.last());
        lemma_read_concat(state, all_signature_lines(init), signature_lines(sigs.last()));
        assert((state.signatures + all_as_read(init)).push(as_read(sigs.last()))
            =~= state.signatures + all_as_read(sigs));
        let all = all_signature_lines(sigs);
        let a = all_signature_lines(init);
        assert forall|i: int| 0 <= i < all.len() implies lacks(#[trigger] all[i], '\n') by {
            if i < a.len() {
                assert(all[i] == a[i]);
            } else {
                assert(all[i] == signature_lines(sigs.last())[i - a.len()]);
            }
        }
    }
}

/// A line that, trimmed, is not empty, begins with no slash, holds no
/// opening of a parameter list and begins with neither `record` nor
/// `variant` leaves no capability pending, and changes nothing else.
pub proof fn lemma_read_other(state: Reading, raw: Seq<char>)
    requires
        trim(raw).len() > 0,
        trim(raw)[0] != '/',
        find(trim(raw), ": func("@) is None,
        !starts_with(trim(raw), "record "@),
        !starts_with(trim(raw), "variant "@),
    ensures
        read_line(state, raw) == (Reading { pending: CapabilitySet::none(), ..state }),
{
    reveal_strlit("//");
    let body = trim(raw);
    if starts_with(body, "//"@) {
        assert(body.subrange(0, 2)[0] == body[0]);
    }
}

/// A text that begins with an identifier and a colon, comma or round
/// bracket behind it does not begin with a word and a space.
pub proof fn lemma_not_keyword(body: Seq<char>, name: Seq<char>, keyword: Seq<char>)
    requires
        is_identifier(name),
        body.len() > name.len(),
        forall|i: int| 0 <= i < name.len() ==> body[i] == name[i],
        body[name.len() as int] == ':' || body[name.len() as int] == ',' || body[name.len() as int]
            == '(',
        keyword.len() >= 1,
        keyword.last() == ' ',
        forall|i: int| 0 <= i < keyword.len() - 1 ==> 'a' <= #[trigger] keyword[i] <= 'z',
    ensures
        !starts_with(body, keyword),
{
    if starts_with(body, keyword) {
        let k = keyword.len() - 1;
        let part = body.subrange(0, keyword.len() as int);
        if name.len() > k {
            assert(part[k] == body[k]);
            assert(is_name_char(name[k]));
        } else {
            let m = name.len() as int;
            assert(part[m] == body[m]);
            if m < k {
                assert('a' <= keyword[m] <= 'z');
            }
        }
    }
}

/// The two words that open a definition: each is small letters and a
/// space.
pub proof fn lemma_keywords()
    ensures
        "record "@.len() == 7 && "record "@.last() == ' ' && "record "@[0] == 'r',
        "variant "@.len() == 8 && "variant "@.last() == ' ' && "variant "@[0] == 'v',
        forall|i: int| 0 <= i < "record "@.len() - 1 ==> 'a' <= #[trigger] "record "@[i] <= 'z',
        forall|i: int| 0 <= i < "variant "@.len() - 1 ==> 'a' <= #[trigger] "variant "@[i] <= 'z',
        ": func("@.len() == 7 && ": func("@[0] == ':' && ": func("@[6] == '(',
{
    reveal_strlit("record ");
    reveal_strlit("variant ");
    reveal_strlit(": func(");
}

/// A text does not begin with a word that begins otherwise.
pub proof fn lemma_other_start(body: Seq<char>, keyword: Seq<char>)
    requires
        body.len() > 0,
        keyword.len() > 0,
        body[0] != keyword[0],
    ensures
        !starts_with(body, keyword),
{
    if starts_with(body, keyword) {
        assert(body.subrange(0, keyword.len() as int)[0] == body[0]);
    }
}

/// The field `f` is named by an identifier and has a well-formed type.
pub open spec fn well_formed_field(f: ParameterModel) -> bool {
    is_identifier(f.name) && well_formed(f.ty)
}

/// The case `c` is named by an identifier, and what it carries, if
/// anything, has a well-formed type.
pub open spec fn well_formed_case(c: CaseModel) -> bool {
    is_identifier(c.name) && (c.payload matches Some(t) ==> well_formed(t))
}

/// The definition `def` declares an identifier, and its fields or cases
/// are well formed.
pub open spec fn well_formed_definition(def: TypeDefModel) -> bool {
    match def {
        TypeDefModel::Record { name, fields } => is_identifier(name) && forall|i: int|
            0 <= i < fields.len() ==> well_formed_field(#[trigger] fields[i]),
        TypeDefModel::Variant { name, cases } => is_identifier(name) && forall|i: int|
            0 <= i < cases.len() ==> well_formed_case(#[trigger] cases[i]),
    }
}

/// The line of a well-formed field leaves no capability pending, and
/// changes nothing else.
pub proof fn lemma_read_field(state: Reading, f: ParameterModel)
    requires
        well_formed_field(f),
    ensures
        read_line(state, field_line(f)) == (Reading { pending: CapabilitySet::none(), ..state }),
        lacks(field_line(f), '\n'),
{
    reveal_strlit("        ");
    reveal_strlit(": ");
    reveal_strlit(",");
    lemma_keywords();
    lemma_type_text(f.ty);
    let ty = idl_text(f.ty);
    let body = f.name + ": "@ + ty + ","@;
    let raw = field_line(f);
    assert(raw =~= "        "@ + body);
    assert(body[0] == f.name[0]);
    assert(is_name_char(f.name[0]));
    assert(body.last() == ',');
    lemma_trim_indented("        "@, body);
    assert forall|i: int| 0 <= i < body.len() implies #[trigger] body[i] != '(' && body[i]
        != '\n' by {
        if i < f.name.len() {
            assert(body[i] == f.name[i]);
            assert(is_name_char(f.name[i]));
        } else if i < f.name.len() + 2 {
        } else if i < f.name.len() + 2 + ty.len() {
            assert(body[i] == ty[i - f.name.len() - 2]);
        } else {
        }
    }
    lemma_absent(body, ": func("@, 6);
    assert forall|i: int| 0 <= i < f.name.len() implies body[i] == f.name[i] by {}
    assert(body[f.name.len() as int] == ':');
    lemma_not_keyword(body, f.name, "record "@);
    lemma_not_keyword(body, f.name, "variant "@);
    lemma_read_other(state, raw);
    assert forall|i: int| 0 <= i < raw.len() implies #[trigger] raw[i] != '\n' by {
        if i >= 8 {
            assert(raw[i] == body[i - 8]);
        }
    }
}

/// The line of a well-formed case leaves no capability pending, and
/// changes nothing else.
pub proof fn lemma_read_case(state: Reading, c: CaseModel)
    requires
        well_formed_case(c),
    ensures
        read_line(state, case_line(c)) == (Reading { pending: CapabilitySet::none(), ..state }),
        lacks(case_line(c), '\n'),
{
    reveal_strlit("        ");
    reveal_strlit("(");
    reveal_strlit("),");
    reveal_strlit(",");
    lemma_keywords();
    let raw = case_line(c);
    let body = raw.skip(8);
    assert(raw =~= "        "@ + body);
    assert forall|i: int| 0 <= i < c.name.len() implies body[i] == c.name[i] by {}
    assert(body[0] == c.name[0]);
    assert(is_name_char(c.name[0]));
    assert(body.last() == ',');
    match c.payload {
        None => {
            assert(body =~= c.name + ","@);
            assert forall|i: int| 0 <= i < body.len() implies #[trigger] body[i] != ':' && body[i]
                != '\n' by {
                if i < c.name.len() {
                    assert(is_name_char(c.name[i]));
                }
            }
            assert(body[c.name.len() as int] == ',');
        },
        Some(t) => {
            lemma_type_text(t);
            let ty = idl_text(t);
            assert(body =~= c.name + "("@ + ty + "),"@);
            assert forall|i: int| 0 <= i < body.len() implies #[trigger] body[i] != ':' && body[i]
                != '\n' by {
                if i < c.name.len() {
                    assert(is_name_char(c.name[i]));
                } else if i < c.name.len() + 1 {
                } else if i < c.name.len() + 1 + ty.len() {
                    assert(body[i] == ty[i - c.name.len() - 1]);
                } else {
                }
            }
            assert(body[c.name.len() as int] == '(');
        },
    }
    lemma_trim_indented("        "@, body);
    lemma_absent(body, ": func("@, 0);
    lemma_not_keyword(body, c.name, "record "@);
    lemma_not_keyword(body, c.name, "variant "@);
    lemma_read_other(state, raw);
    assert forall|i: int| 0 <= i < raw.len() implies #[trigger] raw[i] != '\n' by {
        if i >= 8 {
            assert(raw[i] == body[i - 8]);
        }
    }
}

/// Lines that each leave no capability pending and change nothing else
/// do so together, where none was pending.
pub proof fn lemma_read_others(state: Reading, lines: Seq<Seq<char>>)
    requires
        state.pending == CapabilitySet::none(),
        forall|i: int, st: Reading|
            0 <= i < lines.len() ==> #[trigger] read_line(st, lines[i]) == (Reading {
                pending: CapabilitySet::none(),
                ..st
            }),
    ensures
        read_more(state, lines) == state,
    decreases lines.len(),
{
    if lines.len() > 0 {
        let init = lines.drop_last();
        assert forall|i: int, st: Reading| 0 <= i < init.len() implies #[trigger] read_line(
            st,
            init[i],
        ) == (Reading { pending: CapabilitySet::none(), ..st }) by {
            assert(init[i] == lines[i]);
        }
        lemma_read_others(state, init);
        assert(read_line(state, lines[lines.len() - 1]) == (Reading {
            pending: CapabilitySet::none(),
            ..state
        }));
    }
}

/// The lines between the braces of a well-formed definition, read where
/// no capability is pending, change nothing.
pub proof fn lemma_read_body(state: Reading, def: TypeDefModel)
    requires
        well_formed_definition(def),
        state.pending == CapabilitySet::none(),
    ensures
        read_more(state, body_lines(def)) == state,
        forall|i: int|
            0 <= i < body_lines(def).len() ==> lacks(#[trigger] body_lines(def)[i], '\n'),
{
    let lines = body_lines(def);
    assert forall|i: int, st: Reading| 0 <= i < lines.len() implies #[trigger] read_line(
        st,
        lines[i],
    ) == (Reading { pending: CapabilitySet::none(), ..st }) && lacks(lines[i], '\n') by {
        match def {
            TypeDefModel::Record { fields, .. } => {
                assert(well_formed_field(fields[i]));
                lemma_read_field(st, fields[i]);
            },
            TypeDefModel::Variant { cases, .. } => {
                assert(well_formed_case(cases[i]));
                lemma_read_case(st, cases[i]);
            },
        }
    }
    lemma_read_others(state, lines);
    assert forall|i: int| 0 <= i < lines.len() implies lacks(#[trigger] lines[i], '\n') by {
        assert(read_line(state, lines[i]) == (Reading {
            pending: CapabilitySet::none(),
            ..state
        }));
    }
}

/// The line that opens a well-formed definition gives the name that the
/// definition declares, leaves no capability pending, and changes nothing
/// else.
pub proof fn lemma_read_head(state: Reading, def: TypeDefModel)
    requires
        well_formed_definition(def),
    ensures
        read_line(state, type_def_head(def)) == (Reading {
            type_names: state.type_names.push(def.declared()),
            pending: CapabilitySet::none(),
            ..state
        }),
        lacks(type_def_head(def), '\n'),
{
    reveal_strlit("    record ");
    reveal_strlit("    variant ");
    reveal_strlit("    ");
    reveal_strlit(" {");
    reveal_strlit("{");
    reveal_strlit("//");
    lemma_keywords();
    let name = def.declared();
    let keyword = match def {
        TypeDefModel::Record { .. } => "record "@,
        TypeDefModel::Variant { .. } => "variant "@,
    };
    let raw = type_def_head(def);
    let body = keyword + name + " {"@;
    reveal_strlit("record ");
    reveal_strlit("variant ");
    assert("    record "@ =~= "    "@ + "record "@);
    assert("    variant "@ =~= "    "@ + "variant "@);
    match def {
        TypeDefModel::Record { .. } => {
            assert(raw == "    record "@ + name + " {"@);
        },
        TypeDefModel::Variant { .. } => {
            assert(raw == "    variant "@ + name + " {"@);
        },
    }
    assert(raw =~= "    "@ + body);
    assert(body[0] == keyword[0]);
    assert(body.last() == '{');
    lemma_trim_indented("    "@, body);
    assert forall|i: int| 0 <= i < body.len() implies #[trigger] body[i] != ':' && body[i]
        != '\n' by {
        if i < keyword.len() {
            assert(body[i] == keyword[i]);
            if i < keyword.len() - 1 {
                assert('a' <= keyword[i] <= 'z');
            }
        } else if i < keyword.len() + name.len() {
            assert(body[i] == name[i - keyword.len()]);
            assert(is_name_char(name[i - keyword.len()]));
        } else {
        }
    }
    lemma_absent(body, ": func("@, 0);
    if starts_with(body, "//"@) {
        assert(body.subrange(0, 2)[0] == body[0]);
    }
    assert(body.subrange(0, keyword.len() as int) =~= keyword);
    if def is Variant {
        lemma_other_start(body, "record "@);
    }
    // The name stands between the word and the brace.
    let behind = body.skip(keyword.len() as int);
    assert(behind =~= name + " {"@);
    assert(behind.subrange(behind.len() - 1, behind.len() as int) =~= "{"@);
    let bare = behind.take(behind.len() - 1);
    assert(strip_suffix(behind, "{"@) == bare);
    assert(bare =~= name + seq![' ']);
    assert(is_name_char(name[0]));
    assert(is_name_char(name.last()));
    lemma_leading_space_is(bare, 0);
    assert(trim_start(bare) =~= bare);
    lemma_trailing_space_is(bare, 1);
    assert(bare.take(bare.len() - 1) =~= name);
    assert(declared_name(body, keyword) == name);
    assert forall|i: int| 0 <= i < raw.len() implies #[trigger] raw[i] != '\n' by {
        if i >= 4 {
            assert(raw[i] == body[i - 4]);
        }
    }
}

/// A closing brace, indented or not, leaves no capability pending, and
/// changes nothing else.
pub proof fn lemma_read_closing(state: Reading)
    ensures
        read_line(state, "    }"@) == (Reading { pending: CapabilitySet::none(), ..state }),
        read_line(state, "}"@) == (Reading { pending: CapabilitySet::none(), ..state }),
        lacks("    }"@, '\n'),
        lacks("}"@, '\n'),
{
    reveal_strlit("    }");
    reveal_strlit("}");
    lemma_keywords();
    let body = "}"@;
    let indent = seq![' ', ' ', ' ', ' '];
    assert("    }"@ =~= indent + body);
    lemma_trim_indented(indent, body);
    lemma_trim_indented(Seq::<char>::empty(), body);
    assert(Seq::<char>::empty() + body =~= body);
    assert forall|i: int| 0 <= i < body.len() implies #[trigger] body[i] != ':' by {}
    lemma_absent(body, ": func("@, 0);
    lemma_other_start(body, "record "@);
    lemma_other_start(body, "variant "@);
    lemma_read_other(state, "    }"@);
    lemma_read_other(state, "}"@);
}

/// The line that opens the block of an interface named by an identifier
/// leaves no capability pending, and changes nothing else.
pub proof fn lemma_read_opening(state: Reading, name: Seq<char>)
    requires
        is_identifier(name),
    ensures
        read_line(state, "interface "@ + name + " {"@) == (Reading {
            pending: CapabilitySet::none(),
            ..state
        }),
        lacks("interface "@ + name + " {"@, '\n'),
{
    reveal_strlit("interface ");
    reveal_strlit(" {");
    lemma_keywords();
    let body = "interface "@ + name + " {"@;
    assert(body[0] == 'i');
    assert(body.last() == '{');
    lemma_trim_indented(Seq::<char>::empty(), body);
    assert(Seq::<char>::empty() + body =~= body);
    assert forall|i: int| 0 <= i < body.len() implies #[trigger] body[i] != ':' && body[i]
        != '\n' by {
        if i < 10 {
        } else if i < 10 + name.len() {
            assert(body[i] == name[i - 10]);
            assert(is_name_char(name[i - 10]));
        } else {
        }
    }
    lemma_absent(body, ": func("@, 0);
    lemma_other_start(body, "record "@);
    lemma_other_start(body, "variant "@);
    lemma_read_other(state, body);
}

/// The lines of a well-formed definition, read where no capability is
/// pending, give the name that the definition declares, and change
/// nothing else.
pub proof fn lemma_read_definition(state: Reading, def: TypeDefModel)
    requires
        well_formed_definition(def),
        state.pending == CapabilitySet::none(),
    ensures
        read_more(state, type_def_lines(def)) == (Reading {
            type_names: state.type_names.push(def.declared()),
            ..state
        }),
        forall|i: int|
            0 <= i < type_def_lines(def).len() ==> lacks(#[trigger] type_def_lines(def)[i], '\n'),
{
    let head = seq![type_def_head(def)];
    let body = body_lines(def);
    let foot = seq!["    }"@, Seq::<char>::empty()];
    lemma_read_one(state, type_def_head(def));
    lemma_read_head(state, def);
    let opened = read_more(state, head);
    lemma_read_body(opened, def);
    lemma_read_concat(state, head, body);
    lemma_read_closing(opened);
    lemma_read_empty(opened);
    assert(foot.drop_last() =~= seq!["    }"@]);
    lemma_read_one(opened, "    }"@);
    assert(read_more(opened, foot) == read_line(read_more(opened, foot.drop_last()), foot.last()));
    lemma_read_concat(state, head + body, foot);
    let all = type_def_lines(def);
    assert forall|i: int| 0 <= i < all.len() implies lacks(#[trigger] all[i], '\n') by {
        if i < 1 {
            assert(all[i] == head[i]);
        } else if i < 1 + body.len() {
            assert(all[i] == body[i - 1]);
        } else {
            assert(all[i] == foot[i - 1 - body.len()]);
        }
    }
}

/// The names that the definitions `defs` declare, in order.
pub open spec fn declared_names(defs: Seq<TypeDefModel>) -> Seq<Seq<char>> {
    Seq::new(defs.len(), |i: int| defs[i].declared())
}

/// The lines of well-formed definitions, read where no capability is
/// pending, give the names that the definitions declare, in order, and
/// change nothing else.
pub proof fn lemma_read_definitions(state: Reading, defs: Seq<TypeDefModel>)
    requires
        forall|i: int| 0 <= i < defs.len() ==> well_formed_definition(#[trigger] defs[i]),
        state.pending == CapabilitySet::none(),
    ensures
        read_more(state, all_type_def_lines(defs)) == (Reading {
            type_names: state.type_names + declared_names(defs),
            ..state
        }),
        forall|i: int|
            0 <= i < all_type_def_lines(defs).len() ==> lacks(
                #[trigger] all_type_def_lines(defs)[i],
                '\n',
            ),
    decreases defs.len(),
{
    if defs.len() == 0 {
        assert(state.type_names + declared_names(defs) =~= state.type_names);
    } else {
        let init = defs.drop_last();
        assert forall|i: int| 0 <= i < init.len() implies well_formed_definition(
            #[trigger] init[i],
        ) by {
            assert(init[i] == defs[i]);
        }
        lemma_read_definitions(state, init);
        let before = read_more(state, all_type_def_lines(init));
        lemma_read_definition(before, defs.last());
        lemma_read_concat(state, all_type_def_lines(init), type_def_lines(defs.last()));
        assert((state.type_names + declared_names(init)).push(defs.last().declared())
            =~= state.type_names + declared_names(defs));
        let all = all_type_def_lines(defs);
        let a = all_type_def_lines(init);
        assert forall|i: int| 0 <= i < all.len() implies lacks(#[trigger] all[i], '\n') by {
            if i < a.len() {
                assert(all[i] == a[i]);
            } else {
                assert(all[i] == type_def_lines(defs.last())[i - a.len()]);
            }
        }
    }
}

/// The block that is written for an interface reads back as that
/// interface: its routines in order, each with its capabilities and with
/// the address in its structured form, and the names of its records and
/// variants in order.
pub proof fn lemma_interface_round_trip(
    name: Seq<char>,
    defs: Seq<TypeDefModel>,
    sigs: Seq<SignatureModel>,
)
    requires
        is_identifier(name),
        forall|i: int| 0 <= i < defs.len() ==> well_formed_definition(#[trigger] defs[i]),
        forall|i: int| 0 <= i < sigs.len() ==> exposed(#[trigger] sigs[i]),
    ensures
        read_interface(interface_text(name, defs, sigs)) == (Reading {
            signatures: all_as_read(sigs),
            type_names: declared_names(defs),
            pending: CapabilitySet::none(),
        }),
{
    let empty = Seq::<char>::empty();
    let head = seq!["interface "@ + name + " {"@];
    let d = all_type_def_lines(defs);
    let s = all_signature_lines(sigs);
    let foot = seq!["}"@];
    let lines = interface_lines(name, defs, sigs);
    let start = nothing_read();
    lemma_read_opening(start, name);
    lemma_read_one(start, "interface "@ + name + " {"@);
    let opened = read_more(start, head);
    assert(opened == start);
    lemma_read_definitions(opened, defs);
    let defined = read_more(opened, d);
    lemma_read_signatures(defined, sigs);
    let declared = read_more(defined, s);
    lemma_read_closing(declared);
    lemma_read_one(declared, "}"@);
    lemma_read_empty(declared);
    lemma_read_one(declared, empty);
    lemma_read_concat(start, head, d);
    lemma_read_concat(start, head + d, s);
    lemma_read_concat(start, head + d + s, foot);
    lemma_read_concat(start, lines, seq![empty]);
    assert(lines.push(empty) =~= lines + seq![empty]);
    assert forall|i: int| 0 <= i < lines.len() implies lacks(#[trigger] lines[i], '\n') by {
        if i < 1 {
            assert(lines[i] == head[i]);
        } else if i < 1 + d.len() {
            assert(lines[i] == d[i - 1]);
        } else if i < 1 + d.len() + s.len() {
            assert(lines[i] == s[i - 1 - d.len()]);
        } else {
            assert(lines[i] == foot[i - 1 - d.len() - s.len()]);
        }
    }
    lemma_split_lines(lines);
    lemma_read_from_start(lines.push(empty));
    assert(Seq::<SignatureModel>::empty() + all_as_read(sigs) =~= all_as_read(sigs));
    assert(Seq::<Seq<char>>::empty() + declared_names(defs) =~= declared_names(defs));
}

} // verus!

//! The generated crate: its manifest, and the one source file that holds a
//! module of calling functions for every interface.

use crate::interface::{signature_models, MethodSignature, SignatureModel};
use crate::naming::{pascal_case, pascal_chars, snake_case, snake_chars};
use crate::parse::{
    find_interfaces_in_world, find_world_name, imports, is_world_text, parse_wit_file,
    read_interface, strings, world_name, world_text,
};
use crate::stubs::{caller_stubs, write_caller_stubs};
use crate::text::{append, append_str, chars_of, replace_char, replaced, same, string_of};
use vstd::prelude::*;

verus! {

/// A file of interface text: the name of the file without its extension,
/// and what the file holds.
#[derive(Debug, PartialEq, Eq)]
pub struct WitFile {
    pub stem: String,
    pub content: String,
}

/// What a `WitFile` stands for in contracts.
pub struct FileModel {
    pub stem: Seq<char>,
    pub content: Seq<char>,
}

impl View for WitFile {
    type V = FileModel;

    open spec fn view(&self) -> FileModel {
        FileModel { stem: self.stem@, content: self.content@ }
    }
}

/// The models of the files of `v`, in order.
pub open spec fn file_models(v: Seq<WitFile>) -> Seq<FileModel> {
    Seq::new(v.len(), |i: int| v[i]@)
}

/// The generated crate.
#[derive(Debug, PartialEq, Eq)]
pub struct GeneratedCrate {
    /// The text of its `Cargo.toml`.
    pub cargo_toml: String,
    /// The text of its `src/lib.rs`.
    pub lib_rs: String,
}

/// The module generated for one interface.
pub struct ModuleModel {
    pub name: Seq<char>,
    pub content: Seq<char>,
}

/// The manifest of the generated crate.
pub const CALLER_UTILS_MANIFEST: &'static str = "[package]\n\
name = \"caller-utils\"\n\
version = \"0.1.0\"\n\
edition = \"2021\"\n\
publish = false\n\
\n\
[dependencies]\n\
anyhow = \"1.0\"\n\
hyperware_process_lib = { version = \"1.0.2\", features = [\"logging\"] }\n\
process_macros = \"0.1.0\"\n\
futures-util = \"0.3\"\n\
serde = { version = \"1.0\", features = [\"derive\"] }\n\
serde_json = \"1.0\"\n\
wit_parser = { path = \"../crates/wit_parser\" }\n\
once_cell = \"1.20.2\"\n\
hyperware_app_common = { path = \"../crates/hyperware_app_common\" }\n\
futures = \"0.3\"\n\
uuid = { version = \"1.0\" }\n\
\n\
\n\
[lib]\n\
crate-type = [\"cdylib\", \"lib\"]\n";

/// The manifest of the generated crate, as a sequence of characters.
pub open spec fn manifest_text() -> Seq<char> {
    CALLER_UTILS_MANIFEST@
}

/// The name of the world: what the first world file that declares a world
/// declares.
pub open spec fn world_among(files: Seq<FileModel>) -> Option<Seq<char>>
    decreases files.len(),
{
    if files.len() == 0 {
        None
    } else if world_text(files[0].content) && world_name(files[0].content) is Some {
        world_name(files[0].content)
    } else {
        world_among(files.skip(1))
    }
}

/// The interfaces that the world files import, in the order of the files
/// and, within a file, of its lines.
pub open spec fn imports_among(files: Seq<FileModel>) -> Seq<Seq<char>>
    decreases files.len(),
{
    if files.len() == 0 {
        Seq::empty()
    } else if world_text(files.last().content) {
        imports_among(files.drop_last()) + imports(files.last().content)
    } else {
        imports_among(files.drop_last())
    }
}

/// The names of the records and variants of the interface `name`: those
/// that the last interface file of that name declares.
pub open spec fn types_of(files: Seq<FileModel>, name: Seq<char>) -> Option<Seq<Seq<char>>>
    decreases files.len(),
{
    if files.len() == 0 {
        None
    } else if !world_text(files.last().content) && files.last().stem == name {
        Some(read_interface(files.last().content).type_names)
    } else {
        types_of(files.drop_last(), name)
    }
}

/// The lines that bring the types `types` into scope, by their capitalised
/// names.
pub open spec fn use_lines(types: Seq<Seq<char>>) -> Seq<char>
    decreases types.len(),
{
    if types.len() == 0 {
        Seq::<char>::empty()
    } else {
        use_lines(types.drop_last()) + "pub use crate::wit_custom::"@ + pascal_case(types.last())
            + ";\n"@
    }
}

/// The lines that bring into scope the types of every interface among
/// `names` that has a file.
pub open spec fn uses_among(files: Seq<FileModel>, names: Seq<Seq<char>>) -> Seq<char>
    decreases names.len(),
{
    if names.len() == 0 {
        Seq::<char>::empty()
    } else {
        match types_of(files, names.last()) {
            Some(types) => uses_among(files, names.drop_last()) + use_lines(types),
            None => uses_among(files, names.drop_last()),
        }
    }
}

/// The functions generated for the routines `sigs`.
pub open spec fn stubs_text(sigs: Seq<SignatureModel>) -> Seq<char>
    decreases sigs.len(),
{
    if sigs.len() == 0 {
        Seq::<char>::empty()
    } else {
        stubs_text(sigs.drop_last()) + caller_stubs(sigs.last())
    }
}

/// The first position at or after `from` of a module of `mods` named `name`.
pub open spec fn position(mods: Seq<ModuleModel>, name: Seq<char>, from: int) -> Option<int>
    decreases mods.len() - from,
{
    if from < 0 || from >= mods.len() {
        None
    } else if mods[from].name == name {
        Some(from)
    } else {
        position(mods, name, from + 1)
    }
}

/// `mods` with the module `m`: in the place of the module of the same name,
/// where there is one, and else at the end.
pub open spec fn put_module(mods: Seq<ModuleModel>, m: ModuleModel) -> Seq<ModuleModel> {
    match position(mods, m.name, 0) {
        Some(i) => mods.update(i, m),
        None => mods.push(m),
    }
}

/// The modules generated for the interface files among `files`: one for
/// each file that declares a routine, under the underscored name of the
/// file. Of two files with one such name the first decides the module's
/// place and the second what it holds.
pub open spec fn modules_among(files: Seq<FileModel>) -> Seq<ModuleModel>
    decreases files.len(),
{
    if files.len() == 0 {
        Seq::empty()
    } else {
        let before = modules_among(files.drop_last());
        let file = files.last();
        let sigs = read_interface(file.content).signatures;
        if !world_text(file.content) && sigs.len() > 0 {
            put_module(
                before,
                ModuleModel { name: snake_case(file.stem), content: stubs_text(sigs) },
            )
        } else {
            before
        }
    }
}

/// The text of the module `m`, its content indented by four spaces.
pub open spec fn module_text(m: ModuleModel) -> Seq<char> {
    "/// Generated RPC stubs for the "@ + m.name + " interface\npub mod "@ + m.name
        + " {\n    use crate::*;\n\n    "@ + replace_char(m.content, '\n', "\n    "@) + "\n}\n\n"@
}

/// The texts of the modules `mods`, in order.
pub open spec fn modules_text(mods: Seq<ModuleModel>) -> Seq<char>
    decreases mods.len(),
{
    if mods.len() == 0 {
        Seq::<char>::empty()
    } else {
        modules_text(mods.drop_last()) + module_text(mods.last())
    }
}

/// What the source file holds behind the name of the world: the end of the
/// line that names it, and the items that every module of calling functions
/// uses.
pub const SOURCE_IMPORTS: &'static str = ".wit\");\n\
\n\
/// Generated caller utilities for RPC function stubs\n\
\n\
pub use hyperware_app_common::SendResult;\n\
pub use hyperware_app_common::send;\n\
use hyperware_process_lib::Address;\n\
use serde_json::json;\n\
\n";

/// The first lines of the source file, which name the world `world`.
pub open spec fn source_head(world: Seq<char>) -> Seq<char> {
    "use wit_parser::wit_parser;\nwit_parser!(\"api/"@ + world + SOURCE_IMPORTS@
}

/// The block of `lines` that bring types into scope: nothing where there
/// are none.
pub open spec fn uses_block(lines: Seq<char>) -> Seq<char> {
    if lines.len() == 0 {
        lines
    } else {
        "// Import specific types from each interface\n"@ + lines + "\n"@
    }
}

/// The source file of the crate generated from `files` for the world
/// `world`.
pub open spec fn lib_source(world: Seq<char>, files: Seq<FileModel>) -> Seq<char> {
    source_head(world) + uses_block(uses_among(files, imports_among(files))) + modules_text(
        modules_among(files),
    )
}

/// `r` is what is generated from `files`: nothing where no world file
/// declares a world, and else the manifest and the source file for that
/// world.
pub open spec fn generated_from(files: Seq<FileModel>, r: Option<GeneratedCrate>) -> bool {
    match world_among(files) {
        None => r is None,
        Some(world) => r matches Some(made) && made.cargo_toml@ == manifest_text() && made.lib_rs@
            == lib_source(world, files),
    }
}

/// Generating twice from the same files gives the same texts.
pub proof fn lemma_generation_repeats(
    files: Seq<FileModel>,
    first: Option<GeneratedCrate>,
    second: Option<GeneratedCrate>,
)
    requires
        generated_from(files, first),
        generated_from(files, second),
    ensures
        first is None <==> second is None,
        first is Some ==> first->0.cargo_toml@ == second->0.cargo_toml@ && first->0.lib_rs@
            == second->0.lib_rs@,
{
}

/// The manifest of the generated crate.
pub fn caller_utils_manifest() -> (r: String)
    ensures
        r@ == manifest_text(),
{
    string_of(&chars_of(CALLER_UTILS_MANIFEST))
}

/// The name of the world that `files` declare.
pub fn world_name_among(files: &Vec<WitFile>) -> (r: Option<String>)
    ensures
        match r {
            Some(name) => world_among(file_models(files@)) == Some(name@),
            None => world_among(file_models(files@)) is None,
        },
{
    let mut i: usize = 0;
    assert(file_models(files@).skip(0) == file_models(files@));
    while i < files.len()
        invariant
            i <= files.len(),
            world_among(file_models(files@)) == world_among(file_models(files@).skip(i as int)),
        decreases files.len() - i,
    {
        let ghost rest = file_models(files@).skip(i as int);
        assert(rest[0] == files@[i as int]@);
        assert(rest.skip(1) == file_models(files@).skip(i + 1));
        if is_world_text(files[i].content.as_str()) {
            match find_world_name(files[i].content.as_str()) {
                Some(name) => {
                    return Some(name);
                },
                None => {},
            }
        }
        i = i + 1;
    }
    None
}

/// The interfaces that the world files among `files` import.
pub fn imports_of(files: &Vec<WitFile>) -> (r: Vec<String>)
    ensures
        strings(r@) == imports_among(file_models(files@)),
{
    let mut found: Vec<String> = Vec::new();
    let mut i: usize = 0;
    assert(strings(found@) =~= Seq::<Seq<char>>::empty());
    while i < files.len()
        invariant
            i <= files.len(),
            strings(found@) == imports_among(file_models(files@).take(i as int)),
        decreases files.len() - i,
    {
        proof {
            let next = file_models(files@).take(i + 1);
            assert(next.drop_last() == file_models(files@).take(i as int));
            assert(next.last() == files@[i as int]@);
        }
        if is_world_text(files[i].content.as_str()) {
            let mut more = find_interfaces_in_world(files[i].content.as_str());
            let ghost before = found@;
            let ghost added = more@;
            found.append(&mut more);
            assert(strings(found@) =~= strings(before) + strings(added));
        }
        i = i + 1;
    }
    assert(file_models(files@).take(files.len() as int) == file_models(files@));
    found
}

/// The names of the records and variants of the interface `name`.
pub fn interface_types(files: &Vec<WitFile>, name: &str) -> (r: Option<Vec<String>>)
    ensures
        match r {
            Some(types) => types_of(file_models(files@), name@) == Some(strings(types@)),
            None => types_of(file_models(files@), name@) is None,
        },
{
    let wanted = chars_of(name);
    let mut i: usize = files.len();
    assert(file_models(files@).take(files.len() as int) == file_models(files@));
    while i > 0
        invariant
            i <= files.len(),
            wanted@ == name@,
            types_of(file_models(files@), name@) == types_of(
                file_models(files@).take(i as int),
                name@,
            ),
        decreases i,
    {
        i = i - 1;
        proof {
            let upto = file_models(files@).take(i + 1);
            assert(upto.drop_last() == file_models(files@).take(i as int));
            assert(upto.last() == files@[i as int]@);
        }
        let file = &files[i];
        if !is_world_text(file.content.as_str()) && same(&chars_of(file.stem.as_str()), &wanted) {
            let (_, types) = parse_wit_file(file.content.as_str());
            return Some(types);
        }
    }
    None
}

/// Appends to `out` the lines that bring the types `types` into scope.
fn write_use_lines(types: &Vec<String>, out: &mut Vec<char>)
    ensures
        final(out)@ == old(out)@ + use_lines(strings(types@)),
{
    let mut lines: Vec<char> = Vec::new();
    let mut i: usize = 0;
    while i < types.len()
        invariant
            i <= types.len(),
            lines@ == use_lines(strings(types@).take(i as int)),
        decreases types.len() - i,
    {
        proof {
            let next = strings(types@).take(i + 1);
            assert(next.drop_last() == strings(types@).take(i as int));
            assert(next.last() == types@[i as int]@);
        }
        append_str(&mut lines, "pub use crate::wit_custom::");
        let pascal = pascal_chars(&chars_of(types[i].as_str()));
        append(&mut lines, &pascal);
        append_str(&mut lines, ";\n");
        i = i + 1;
    }
    assert(strings(types@).take(types.len() as int) == strings(types@));
    append(out, &lines);
}

/// The lines that bring into scope the types of the interfaces `names`.
pub fn use_statements(files: &Vec<WitFile>, names: &Vec<String>) -> (r: Vec<char>)
    ensures
        r@ == uses_among(file_models(files@), strings(names@)),
{
    let mut out: Vec<char> = Vec::new();
    let mut i: usize = 0;
    while i < names.len()
        invariant
            i <= names.len(),
            out@ == uses_among(file_models(files@), strings(names@).take(i as int)),
        decreases names.len() - i,
    {
        proof {
            let next = strings(names@).take(i + 1);
            assert(next.drop_last() == strings(names@).take(i as int));
            assert(next.last() == names@[i as int]@);
        }
        match interface_types(files, names[i].as_str()) {
            Some(types) => {
                write_use_lines(&types, &mut out);
            },
            None => {},
        }
        i = i + 1;
    }
    assert(strings(names@).take(names.len() as int) == strings(names@));
    out
}

/// The functions generated for the routines `sigs`.
pub fn stubs_for(sigs: &Vec<MethodSignature>) -> (r: Vec<char>)
    ensures
        r@ == stubs_text(signature_models(sigs@)),
{
    let mut out: Vec<char> = Vec::new();
    let mut i: usize = 0;
    while i < sigs.len()
        invariant
            i <= sigs.len(),
            out@ == stubs_text(signature_models(sigs@).take(i as int)),
        decreases sigs.len() - i,
    {
        proof {
            let next = signature_models(sigs@).take(i + 1);
            assert(next.drop_last() == signature_models(sigs@).take(i as int));
            assert(next.last() == sigs@[i as int]@);
        }
        write_caller_stubs(&sigs[i], &mut out);
        i = i + 1;
    }
    assert(signature_models(sigs@).take(sigs.len() as int) == signature_models(sigs@));
    out
}

/// A generated module, as the library holds it while it assembles the
/// source file.
pub struct Module {
    pub name: Vec<char>,
    pub content: Vec<char>,
}

impl View for Module {
    type V = ModuleModel;

    open spec fn view(&self) -> ModuleModel {
        ModuleModel { name: self.name@, content: self.content@ }
    }
}

/// The models of the modules of `v`, in order.
pub open spec fn module_models(v: Seq<Module>) -> Seq<ModuleModel> {
    Seq::new(v.len(), |i: int| v[i]@)
}

/// Puts the module `m` into `mods`: in the place of the module of the same
/// name, where there is one, and else at the end.
pub fn insert_module(mods: &mut Vec<Module>, m: Module)
    ensures
        module_models(final(mods)@) == put_module(module_models(old(mods)@), m@),
{
    let mut i: usize = 0;
    while i < mods.len()
        invariant
            i <= mods.len(),
            mods@ == old(mods)@,
            position(module_models(mods@), m@.name, 0) == position(
                module_models(mods@),
                m@.name,
                i as int,
            ),
        decreases mods.len() - i,
    {
        assert(module_models(mods@)[i as int] == mods@[i as int]@);
        if same(&mods[i].name, &m.name) {
            let ghost before = mods@;
            mods.set(i, m);
            assert(module_models(mods@) =~= module_models(before).update(i as int, m@));
            return;
        }
        i = i + 1;
    }
    let ghost before = mods@;
    mods.push(m);
    assert(module_models(mods@) =~= module_models(before).push(m@));
}

/// The modules generated for the interface files among `files`.
pub fn modules_of(files: &Vec<WitFile>) -> (r: Vec<Module>)
    ensures
        module_models(r@) == modules_among(file_models(files@)),
{
    let mut mods: Vec<Module> = Vec::new();
    let mut i: usize = 0;
    assert(module_models(mods@) =~= Seq::<ModuleModel>::empty());
    while i < files.len()
        invariant
            i <= files.len(),
            module_models(mods@) == modules_among(file_models(files@).take(i as int)),
        decreases files.len() - i,
    {
        proof {
            let next = file_models(files@).take(i + 1);
            assert(next.drop_last() == file_models(files@).take(i as int));
            assert(next.last() == files@[i as int]@);
        }
        let file = &files[i];
        if !is_world_text(file.content.as_str()) {
            let (sigs, _) = parse_wit_file(file.content.as_str());
            if sigs.len() > 0 {
                let name = snake_chars(&chars_of(file.stem.as_str()));
                let content = stubs_for(&sigs);
                insert_module(&mut mods, Module { name, content });
            }
        }
        i = i + 1;
    }
    assert(file_models(files@).take(files.len() as int) == file_models(files@));
    mods
}

/// The text of the module `m`.
fn module_chars(m: &Module) -> (r: Vec<char>)
    ensures
        r@ == module_text(m@),
{
    let mut out: Vec<char> = Vec::new();
    append_str(&mut out, "/// Generated RPC stubs for the ");
    append(&mut out, &m.name);
    append_str(&mut out, " interface\npub mod ");
    append(&mut out, &m.name);
    append_str(&mut out, " {\n    use crate::*;\n\n    ");
    let indented = replaced(&m.content, '\n', "\n    ");
    append(&mut out, &indented);
    append_str(&mut out, "\n}\n\n");
    out
}

/// The source file of the crate generated from `files` for the world
/// `world`.
pub fn lib_source_chars(world: &str, files: &Vec<WitFile>) -> (r: Vec<char>)
    ensures
        r@ == lib_source(world@, file_models(files@)),
{
    let mut out: Vec<char> = Vec::new();
    append_str(&mut out, "use wit_parser::wit_parser;\nwit_parser!(\"api/");
    append_str(&mut out, world);
    append_str(&mut out, SOURCE_IMPORTS);
    assert(out@ =~= source_head(world@));
    let names = imports_of(files);
    let uses = use_statements(files, &names);
    if uses.len() > 0 {
        append_str(&mut out, "// Import specific types from each interface\n");
        append(&mut out, &uses);
        append_str(&mut out, "\n");
    }
    assert(out@ =~= source_head(world@) + uses_block(uses@));
    let mods = modules_of(files);
    let mut texts: Vec<char> = Vec::new();
    let mut i: usize = 0;
    while i < mods.len()
        invariant
            i <= mods.len(),
            texts@ == modules_text(module_models(mods@).take(i as int)),
        decreases mods.len() - i,
    {
        proof {
            let next = module_models(mods@).take(i + 1);
            assert(next.drop_last() == module_models(mods@).take(i as int));
            assert(next.last() == mods@[i as int]@);
        }
        let one = module_chars(&mods[i]);
        append(&mut texts, &one);
        i = i + 1;
    }
    assert(module_models(mods@).take(mods.len() as int) == module_models(mods@));
    append(&mut out, &texts);
    out
}

/// Generates the crate of calling functions from the interface text of
/// `files`: its manifest and its source file. There is nothing to generate
/// where no world file declares a world.
pub fn create_caller_utils_crate(files: &Vec<WitFile>) -> (r: Option<GeneratedCrate>)
    ensures
        generated_from(file_models(files@), r),
{
    match world_name_among(files) {
        None => None,
        Some(world) => {
            let source = lib_source_chars(world.as_str(), files);
            Some(GeneratedCrate { cargo_toml: caller_utils_manifest(), lib_rs: string_of(&source) })
        },
    }
}

} // verus!

//! The routines generated for the calling side: for each routine of an
//! interface and each way in which it may be reached, one asynchronous
//! function that sends the request and waits for the answer.

use crate::host::{default_literal, default_value, host_text, host_type};
use crate::interface::{
    parameter_models, Capability, CapabilitySet, MethodSignature, Parameter, ParameterModel,
    SignatureModel, TargetForm,
};
use crate::naming::{pascal_case, pascal_chars, snake_case, snake_chars};
use crate::text::{append, append_str, chars_of, string_of};
use vstd::prelude::*;

verus! {

/// The word for the capability `c`.
pub open spec fn capability_name(c: Capability) -> Seq<char> {
    match c {
        Capability::Remote => "remote"@,
        Capability::Local => "local"@,
        Capability::Http => "http"@,
    }
}

/// The name of the function generated for the routine `name` reached by `c`.
pub open spec fn stub_name(name: Seq<char>, c: Capability) -> Seq<char> {
    snake_case(name) + "_"@ + capability_name(c) + "_invoke"@
}

/// The host type of the address parameter.
pub open spec fn target_text(form: TargetForm) -> Seq<char> {
    match form {
        TargetForm::Address => "&Address"@,
        TargetForm::Text => "&str"@,
    }
}

/// One parameter of a generated function: `prefix`, the underscored name, a
/// colon and the host type.
pub open spec fn parameter_text(p: ParameterModel, prefix: Seq<char>) -> Seq<char> {
    prefix + snake_case(p.name) + ": "@ + host_text(p.ty)
}

/// The parameters `ps` of a generated function, separated by commas.
pub open spec fn parameter_list(ps: Seq<ParameterModel>, prefix: Seq<char>) -> Seq<char>
    decreases ps.len(),
{
    if ps.len() == 0 {
        Seq::<char>::empty()
    } else if ps.len() == 1 {
        parameter_text(ps[0], prefix)
    } else {
        parameter_list(ps.drop_last(), prefix) + ", "@ + parameter_text(ps.last(), prefix)
    }
}

/// All parameters of the function generated for `sig`: the address first,
/// where the routine has one, then the routine's own. Each name is preceded
/// by `prefix`.
pub open spec fn all_parameters(sig: SignatureModel, prefix: Seq<char>) -> Seq<char> {
    match sig.target {
        None => parameter_list(sig.parameters, prefix),
        Some(form) => {
            let target = prefix + "target: "@ + target_text(form);
            if sig.parameters.len() == 0 {
                target
            } else {
                target + ", "@ + parameter_list(sig.parameters, prefix)
            }
        },
    }
}

/// The underscored names of `ps`, separated by commas.
pub open spec fn argument_list(ps: Seq<ParameterModel>) -> Seq<char>
    decreases ps.len(),
{
    if ps.len() == 0 {
        Seq::<char>::empty()
    } else if ps.len() == 1 {
        snake_case(ps[0].name)
    } else {
        argument_list(ps.drop_last()) + ", "@ + snake_case(ps.last().name)
    }
}

/// The request that the function generated for `sig` sends: the routine's
/// capitalised name as the tag of what it carries, which is nothing, the one
/// argument, or the arguments as a tuple.
pub open spec fn request_text(sig: SignatureModel) -> Seq<char> {
    let tag = "json!({\""@ + pascal_case(sig.name) + "\": "@;
    if sig.parameters.len() == 0 {
        tag + "{}})"@
    } else if sig.parameters.len() == 1 {
        tag + snake_case(sig.parameters[0].name) + "})"@
    } else {
        tag + "("@ + argument_list(sig.parameters) + ")})"@
    }
}

/// The first lines of the function generated for `sig` reached by `c`, up to
/// the bracket that opens its parameters.
pub open spec fn stub_head(sig: SignatureModel, c: Capability) -> Seq<char> {
    "/// Generated stub for `"@ + sig.name + "` "@ + capability_name(c)
        + " RPC call\npub async fn "@ + stub_name(sig.name, c) + "("@
}

/// The function generated for the routine `sig` reached by `c`.
///
/// Reached by `remote` or `local`, it sends the request to `target` and
/// waits at most 30 seconds for the answer. Reached by `http`, it sends
/// nothing: it takes the same parameters under names that begin with an
/// underscore and returns at once the literal for its return type.
pub open spec fn caller_stub(sig: SignatureModel, c: Capability) -> Seq<char> {
    let ret = host_text(sig.return_type);
    if c == Capability::Http {
        stub_head(sig, c) + all_parameters(sig, "_"@) + ") -> SendResult<"@ + ret
            + "> {\n    // HTTP endpoints are served elsewhere\n    SendResult::Success("@
            + default_literal(sig.return_type) + ")\n}"@
    } else {
        stub_head(sig, c) + all_parameters(sig, Seq::<char>::empty()) + ") -> SendResult<"@ + ret
            + "> {\n    let request = "@ + request_text(sig) + ";\n    send::<"@ + ret
            + ">(&request, target, 30).await\n}"@
    }
}

/// The functions generated for one capability of `sig`, if `sig` has it:
/// the function and an empty line.
pub open spec fn stub_if(sig: SignatureModel, c: Capability) -> Seq<char> {
    if sig.capabilities.includes(c) {
        caller_stub(sig, c) + "\n\n"@
    } else {
        Seq::<char>::empty()
    }
}

/// The functions generated for `sig`: one for each of its capabilities, in
/// the order `remote`, `local`, `http`, each followed by an empty line.
pub open spec fn caller_stubs(sig: SignatureModel) -> Seq<char> {
    stub_if(sig, Capability::Remote) + stub_if(sig, Capability::Local) + stub_if(
        sig,
        Capability::Http,
    )
}

/// The words for the capabilities `caps`, in the order `remote`, `local`,
/// `http`, with a comma and a space between each two.
pub open spec fn capability_list(caps: CapabilitySet) -> Seq<char> {
    let first = if caps.remote {
        "remote"@
    } else {
        Seq::<char>::empty()
    };
    let second = if caps.local {
        (if caps.remote {
            first + ", "@
        } else {
            first
        }) + "local"@
    } else {
        first
    };
    if caps.http {
        (if caps.remote || caps.local {
            second + ", "@
        } else {
            second
        }) + "http"@
    } else {
        second
    }
}

/// The function generated on the called side for the routine `sig`: a
/// method that takes the routine's own parameters and returns at once the
/// success that holds the literal for its return type, below a comment that
/// lists the capabilities of the routine. It stands until the author of
/// the component writes the routine.
pub open spec fn callee_stub(sig: SignatureModel) -> Seq<char> {
    "// capabilities: "@ + capability_list(sig.capabilities) + "\nfn "@ + snake_case(sig.name)
        + "(&mut self"@ + (if sig.parameters.len() == 0 {
        Seq::<char>::empty()
    } else {
        ", "@ + parameter_list(sig.parameters, Seq::<char>::empty())
    }) + ") -> Result<"@ + host_text(sig.return_type) + ", String> {\n    Ok("@ + default_literal(
        sig.return_type,
    ) + ")\n}"@
}

/// The word for the capability `c`.
pub fn capability_word(c: Capability) -> (r: &'static str)
    ensures
        r@ == capability_name(c),
{
    match c {
        Capability::Remote => "remote",
        Capability::Local => "local",
        Capability::Http => "http",
    }
}

/// One parameter of a generated function.
fn parameter_chars(p: &Parameter, prefix: &str) -> (r: Vec<char>)
    ensures
        r@ == parameter_text(p@, prefix@),
{
    let mut out = chars_of(prefix);
    let name = chars_of(p.name.as_str());
    let snake = snake_chars(&name);
    append(&mut out, &snake);
    append_str(&mut out, ": ");
    let ty = host_type(&p.ty);
    append(&mut out, &ty);
    out
}

/// The parameters `ps` of a generated function, separated by commas.
fn parameter_list_chars(ps: &Vec<Parameter>, prefix: &str) -> (r: Vec<char>)
    ensures
        r@ == parameter_list(parameter_models(ps@), prefix@),
{
    let mut out: Vec<char> = Vec::new();
    let mut i: usize = 0;
    while i < ps.len()
        invariant
            i <= ps.len(),
            out@ == parameter_list(parameter_models(ps@).take(i as int), prefix@),
        decreases ps.len() - i,
    {
        proof {
            let next = parameter_models(ps@).take(i + 1);
            assert(next.drop_last() == parameter_models(ps@).take(i as int));
            assert(next.last() == ps@[i as int]@);
        }
        if i > 0 {
            append_str(&mut out, ", ");
        }
        let one = parameter_chars(&ps[i], prefix);
        append(&mut out, &one);
        i = i + 1;
    }
    assert(parameter_models(ps@).take(ps.len() as int) == parameter_models(ps@));
    out
}

/// All parameters of the function generated for `sig`.
fn all_parameters_chars(sig: &MethodSignature, prefix: &str) -> (r: Vec<char>)
    ensures
        r@ == all_parameters(sig@, prefix@),
{
    let own = parameter_list_chars(&sig.parameters, prefix);
    match sig.target {
        None => own,
        Some(form) => {
            let mut out = chars_of(prefix);
            append_str(&mut out, "target: ");
            match form {
                TargetForm::Address => {
                    append_str(&mut out, "&Address");
                },
                TargetForm::Text => {
                    append_str(&mut out, "&str");
                },
            }
            if sig.parameters.len() > 0 {
                append_str(&mut out, ", ");
                append(&mut out, &own);
            }
            out
        },
    }
}

/// The underscored names of `ps`, separated by commas.
fn argument_list_chars(ps: &Vec<Parameter>) -> (r: Vec<char>)
    ensures
        r@ == argument_list(parameter_models(ps@)),
{
    let mut out: Vec<char> = Vec::new();
    let mut i: usize = 0;
    while i < ps.len()
        invariant
            i <= ps.len(),
            out@ == argument_list(parameter_models(ps@).take(i as int)),
        decreases ps.len() - i,
    {
        proof {
            let next = parameter_models(ps@).take(i + 1);
            assert(next.drop_last() == parameter_models(ps@).take(i as int));
            assert(next.last() == ps@[i as int]@);
        }
        if i > 0 {
            append_str(&mut out, ", ");
        }
        let name = chars_of(ps[i].name.as_str());
        let snake = snake_chars(&name);
        append(&mut out, &snake);
        i = i + 1;
    }
    assert(parameter_models(ps@).take(ps.len() as int) == parameter_models(ps@));
    out
}

/// The request that the function generated for `sig` sends.
fn request_chars(sig: &MethodSignature) -> (r: Vec<char>)
    ensures
        r@ == request_text(sig@),
{
    let mut out = chars_of("json!({\"");
    let name = chars_of(sig.name.as_str());
    let pascal = pascal_chars(&name);
    append(&mut out, &pascal);
    append_str(&mut out, "\": ");
    if sig.parameters.len() == 0 {
        append_str(&mut out, "{}})");
    } else if sig.parameters.len() == 1 {
        let only = chars_of(sig.parameters[0].name.as_str());
        let snake = snake_chars(&only);
        append(&mut out, &snake);
        append_str(&mut out, "})");
    } else {
        append_str(&mut out, "(");
        let arguments = argument_list_chars(&sig.parameters);
        append(&mut out, &arguments);
        append_str(&mut out, ")})");
    }
    out
}

/// The first lines of the function generated for `sig` reached by `c`.
fn stub_head_chars(sig: &MethodSignature, c: Capability) -> (r: Vec<char>)
    ensures
        r@ == stub_head(sig@, c),
{
    let mut out = chars_of("/// Generated stub for `");
    append_str(&mut out, sig.name.as_str());
    append_str(&mut out, "` ");
    append_str(&mut out, capability_word(c));
    append_str(&mut out, " RPC call\npub async fn ");
    let name = chars_of(sig.name.as_str());
    let mut full = snake_chars(&name);
    append_str(&mut full, "_");
    append_str(&mut full, capability_word(c));
    append_str(&mut full, "_invoke");
    append(&mut out, &full);
    append_str(&mut out, "(");
    out
}

/// The function generated for the routine `sig` reached by `c`, as a
/// sequence of characters.
pub fn caller_stub_chars(sig: &MethodSignature, c: Capability) -> (r: Vec<char>)
    ensures
        r@ == caller_stub(sig@, c),
{
    let mut out = stub_head_chars(sig, c);
    let ret = host_type(&sig.return_type);
    match c {
        Capability::Http => {
            let parameters = all_parameters_chars(sig, "_");
            append(&mut out, &parameters);
            append_str(&mut out, ") -> SendResult<");
            append(&mut out, &ret);
            append_str(
                &mut out,
                "> {\n    // HTTP endpoints are served elsewhere\n    SendResult::Success(",
            );
            let value = default_value(&sig.return_type);
            append(&mut out, &value);
            append_str(&mut out, ")\n}");
        },
        _ => {
            let parameters = all_parameters_chars(sig, "");
            proof {
                reveal_strlit("");
                assert(""@ =~= Seq::<char>::empty());
            }
            append(&mut out, &parameters);
            append_str(&mut out, ") -> SendResult<");
            append(&mut out, &ret);
            append_str(&mut out, "> {\n    let request = ");
            let request = request_chars(sig);
            append(&mut out, &request);
            append_str(&mut out, ";\n    send::<");
            append(&mut out, &ret);
            append_str(&mut out, ">(&request, target, 30).await\n}");
        },
    }
    out
}

/// Generates the function for the routine `signature` reached by
/// `capability`.
pub fn generate_async_function(signature: &MethodSignature, capability: Capability) -> (r: String)
    ensures
        r@ == caller_stub(signature@, capability),
{
    let out = caller_stub_chars(signature, capability);
    string_of(&out)
}

/// The words for the capabilities `caps`.
fn capability_list_chars(caps: &CapabilitySet) -> (r: Vec<char>)
    ensures
        r@ == capability_list(*caps),
{
    let mut out: Vec<char> = Vec::new();
    if caps.remote {
        append_str(&mut out, "remote");
    }
    if caps.local {
        if caps.remote {
            append_str(&mut out, ", ");
        }
        append_str(&mut out, "local");
    }
    if caps.http {
        if caps.remote || caps.local {
            append_str(&mut out, ", ");
        }
        append_str(&mut out, "http");
    }
    assert(out@ =~= capability_list(*caps));
    out
}

/// Generates the function on the called side for the routine `signature`.
pub fn generate_default_implementation(signature: &MethodSignature) -> (r: String)
    ensures
        r@ == callee_stub(signature@),
{
    let mut out = chars_of("// capabilities: ");
    let caps = capability_list_chars(&signature.capabilities);
    append(&mut out, &caps);
    append_str(&mut out, "\nfn ");
    let name = snake_chars(&chars_of(signature.name.as_str()));
    append(&mut out, &name);
    append_str(&mut out, "(&mut self");
    let mut parameters: Vec<char> = Vec::new();
    if signature.parameters.len() > 0 {
        append_str(&mut parameters, ", ");
        let own = parameter_list_chars(&signature.parameters, "");
        proof {
            reveal_strlit("");
            assert(""@ =~= Seq::<char>::empty());
        }
        append(&mut parameters, &own);
    }
    append(&mut out, &parameters);
    append_str(&mut out, ") -> Result<");
    let ret = host_type(&signature.return_type);
    append(&mut out, &ret);
    append_str(&mut out, ", String> {\n    Ok(");
    let value = default_value(&signature.return_type);
    append(&mut out, &value);
    append_str(&mut out, ")\n}");
    string_of(&out)
}

/// Appends to `out` the function generated for `sig` reached by `c` and an
/// empty line, if `sig` has the capability `c`.
fn write_stub_if(sig: &MethodSignature, c: Capability, out: &mut Vec<char>)
    ensures
        final(out)@ == old(out)@ + stub_if(sig@, c),
{
    if sig.capabilities.contains(c) {
        let stub = caller_stub_chars(sig, c);
        append(out, &stub);
        append_str(out, "\n\n");
        assert(out@ =~= old(out)@ + stub_if(sig@, c));
    } else {
        assert(out@ =~= old(out)@ + stub_if(sig@, c));
    }
}

/// Appends to `out` the functions generated for `sig`.
pub fn write_caller_stubs(sig: &MethodSignature, out: &mut Vec<char>)
    ensures
        final(out)@ == old(out)@ + caller_stubs(sig@),
{
    write_stub_if(sig, Capability::Remote, out);
    write_stub_if(sig, Capability::Local, out);
    write_stub_if(sig, Capability::Http, out);
    assert(out@ =~= old(out)@ + caller_stubs(sig@));
}

} // verus!

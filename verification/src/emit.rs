//! Compiles the resolved member model into the source text of a wrapper
//! module: one constructible type per class wrapping an object handle, one
//! wrapper routine per member, and one lookup helper per referenced enum
//! type.  The emitted text is a pure function of the model, so two runs over
//! the same model are byte-identical.

use vstd::prelude::*;

use crate::descriptor::{
    get_input_type, java_type_to_rust, spec_get_input_type, spec_get_return_type,
    spec_java_type_to_rust, spec_return_extraction, spec_return_type_name, PrimitiveType,
    ReturnType, TypeDescriptor, TypeDescriptorView,
};
use crate::descriptor::{convert_return_type_to_string, get_return_type, return_type_to_function};
use crate::javap::{MethodDescriptor, MethodDescriptorView};
use crate::resolver::{resolve_names, spec_resolved_name};
use crate::text::{
    contains_char, decimal_string, replace_char, spec_contains_char, spec_decimal,
    spec_replace_char,
};

verus! {

/// One requested class: its dotted name and its parsed members in
/// disassembly order.
#[derive(Debug)]
pub struct ClassBinding {
    /// The fully qualified class name, dot-delimited.
    pub class_name: String,
    /// The parsed members, in disassembly order.
    pub members: Vec<MethodDescriptor>,
}

/// The mathematical model of a `ClassBinding`.
pub struct ClassBindingView {
    pub class_name: Seq<char>,
    pub members: Seq<MethodDescriptorView>,
}

impl View for ClassBinding {
    type V = ClassBindingView;

    open spec fn view(&self) -> ClassBindingView {
        ClassBindingView { class_name: self.class_name@, members: self.members.deep_view() }
    }
}

impl DeepView for ClassBinding {
    type V = ClassBindingView;

    open spec fn deep_view(&self) -> ClassBindingView {
        self.view()
    }
}

/// A slash- or marker-delimited path turned into one flat identifier.
pub open spec fn spec_ident(path: Seq<char>) -> Seq<char> {
    spec_replace_char(spec_replace_char(path, '/', "_"@), '$', "_"@)
}

/// Mangles a nested-type path into an identifier, matching `spec_ident`.
pub fn ident_of(path: &str) -> (r: String)
    ensures
        r@ == spec_ident(path@),
{
    let step = replace_char(path, '/', "_");
    replace_char(step.as_str(), '$', "_")
}

/// The native source type a wrapper returns for a member of return type `t`:
/// primitives map to their fixed-width kinds, objects and arrays to an owned
/// object handle.
pub open spec fn spec_return_rust_type(t: TypeDescriptorView) -> Seq<char> {
    match t {
        TypeDescriptorView::Primitive(k) => spec_java_type_to_rust(
            TypeDescriptorView::Primitive(k),
        ),
        TypeDescriptorView::Object(_) => "JObject<'static>"@,
        TypeDescriptorView::Array(_) => "JObject<'static>"@,
    }
}

/// Renders the wrapper return type, matching `spec_return_rust_type`.
pub fn return_rust_type(t: &TypeDescriptor) -> (r: &'static str)
    ensures
        r@ == spec_return_rust_type(t@),
{
    match t {
        TypeDescriptor::Primitive(_) => java_type_to_rust(t),
        TypeDescriptor::Object(_) => "JObject<'static>",
        TypeDescriptor::Array(_) => "JObject<'static>",
    }
}

/// The lookup helper emitted once per referenced enum path: a routine that
/// turns a textual constant name into the enum's object handle through a
/// reflective `valueOf` call.
pub open spec fn spec_enum_helper(e: Seq<char>) -> Seq<char> {
    "    #[allow(non_snake_case)]\n    pub fn "@ + spec_ident(e)
        + "_from_str(s: &str) -> JObject {\n        call_static!(\n            \""@ + e
        + "\",\n            \"valueOf\",\n            \"(Ljava/lang/String;)L"@ + e
        + ";\",\n            &[JValue::Object(&java().new_string(s).unwrap()).as_jni()],\n            ReturnType::Object\n        ).l().unwrap()\n    }\n"@
}

/// Appends the enum lookup helper for path `e`, matching `spec_enum_helper`.
fn emit_enum_helper(out: &mut String, e: &str)
    ensures
        final(out)@ == old(out)@ + spec_enum_helper(e@),
{
    out.append("    #[allow(non_snake_case)]\n    pub fn ");
    let ident = ident_of(e);
    out.append(ident.as_str());
    out.append("_from_str(s: &str) -> JObject {\n        call_static!(\n            \"");
    out.append(e);
    out.append("\",\n            \"valueOf\",\n            \"(Ljava/lang/String;)L");
    out.append(e);
    out.append(
        ";\",\n            &[JValue::Object(&java().new_string(s).unwrap()).as_jni()],\n            ReturnType::Object\n        ).l().unwrap()\n    }\n",
    );
}

/// The declared parameter list of a wrapper, from argument position `k` on:
/// `arg_<k>: <type>`, comma-separated, nothing after the last.
pub open spec fn spec_args_sig(args: Seq<TypeDescriptorView>, k: int) -> Seq<char>
    decreases args.len() - k when 0 <= k
{
    if k >= args.len() {
        Seq::empty()
    } else {
        "arg_"@ + spec_decimal(k) + ": "@ + spec_java_type_to_rust(args[k]) + (if k + 1
            < args.len() {
            ", "@
        } else {
            Seq::empty()
        }) + spec_args_sig(args, k + 1)
    }
}

/// Appends the declared parameter list of a wrapper, matching
/// `spec_args_sig`.
fn emit_args_sig(out: &mut String, args: &Vec<TypeDescriptor>)
    ensures
        final(out)@ == old(out)@ + spec_args_sig(args.deep_view(), 0),
{
    let ghost adv = args.deep_view();
    let ghost goal = old(out)@ + spec_args_sig(adv, 0);
    let mut k: usize = 0;
    while k < args.len()
        invariant
            k <= args.len(),
            adv == args.deep_view(),
            adv.len() == args.len(),
            out@ + spec_args_sig(adv, k as int) == goal,
        decreases args.len() - k,
    {
        out.append("arg_");
        let num = decimal_string(k as u64);
        out.append(num.as_str());
        out.append(": ");
        out.append(java_type_to_rust(&args[k]));
        if k + 1 < args.len() {
            out.append(", ");
        }
        proof {
            assert(adv[k as int] == args[k as int]@);
            assert(out@ + spec_args_sig(adv, k + 1) == goal);
        }
        k = k + 1;
    }
    proof {
        assert(spec_args_sig(adv, args.len() as int) =~= Seq::<char>::empty());
        assert(out@ =~= out@ + spec_args_sig(adv, args.len() as int));
    }
}

/// The marshalled argument list of a wrapper's bridge call, from argument
/// position `k` on, comma-separated.
pub open spec fn spec_inputs(args: Seq<TypeDescriptorView>, k: int) -> Seq<char>
    decreases args.len() - k when 0 <= k
{
    if k >= args.len() {
        Seq::empty()
    } else {
        spec_get_input_type("arg_"@ + spec_decimal(k), args[k]) + (if k + 1 < args.len() {
            ", "@
        } else {
            Seq::empty()
        }) + spec_inputs(args, k + 1)
    }
}

/// Appends the marshalled argument list, matching `spec_inputs`.
fn emit_inputs(out: &mut String, args: &Vec<TypeDescriptor>)
    ensures
        final(out)@ == old(out)@ + spec_inputs(args.deep_view(), 0),
{
    let ghost adv = args.deep_view();
    let ghost goal = old(out)@ + spec_inputs(adv, 0);
    let mut k: usize = 0;
    while k < args.len()
        invariant
            k <= args.len(),
            adv == args.deep_view(),
            adv.len() == args.len(),
            out@ + spec_inputs(adv, k as int) == goal,
        decreases args.len() - k,
    {
        let mut name = String::from_str("arg_");
        let num = decimal_string(k as u64);
        name.append(num.as_str());
        let cell = get_input_type(name.as_str(), &args[k]);
        out.append(cell.as_str());
        if k + 1 < args.len() {
            out.append(", ");
        }
        proof {
            assert(adv[k as int] == args[k as int]@);
            assert(out@ + spec_inputs(adv, k + 1) == goal);
        }
        k = k + 1;
    }
    proof {
        assert(spec_inputs(adv, args.len() as int) =~= Seq::<char>::empty());
        assert(out@ =~= out@ + spec_inputs(adv, args.len() as int));
    }
}

/// The `let result =` prefix of a bridge call, empty for a void return.
pub open spec fn spec_result_prefix(r: ReturnType) -> Seq<char> {
    if r == ReturnType::Primitive(PrimitiveType::Void) {
        Seq::empty()
    } else {
        "let result ="@
    }
}

/// The wrapper routine emitted for a constructor under its resolved name
/// `m`: it takes the constructor's arguments and yields the wrapped type
/// through the bridge's construction path, keyed by the declaring path and
/// the full descriptor string.
pub open spec fn spec_ctor_text(d: MethodDescriptorView, m: Seq<char>) -> Seq<char> {
    "    #[allow(non_snake_case)]\n    pub fn "@ + m + "("@ + spec_args_sig(d.arg_types, 0)
        + ") -> Result<Self, JNIError> {\n        Ok(Self {\n            inner: create!(\""@
        + d.declaring_path + "\", \""@ + d.signature + "\", &["@ + spec_inputs(d.arg_types, 0)
        + "])\n        })\n    }\n"@
}

/// The signature opening of a method wrapper, up to and including the call
/// macro's opening: a static member takes only the member's arguments and
/// calls the static path, an instance member takes the receiver handle
/// first and calls the instance path.
pub open spec fn spec_call_head(d: MethodDescriptorView, m: Seq<char>) -> Seq<char> {
    let rt = spec_get_return_type(d.return_type);
    "    #[allow(non_snake_case)]\n    pub fn "@ + m + "("@ + (if d.is_static {
        Seq::<char>::empty()
    } else {
        "instance: &'a GlobalRef, "@
    }) + spec_args_sig(d.arg_types, 0) + ") -> Result<"@ + spec_return_rust_type(d.return_type)
        + ", JNIError> {\n        "@ + spec_result_prefix(rt) + (if d.is_static {
        " call_static!(\n"@
    } else {
        " call!(\n            instance.as_obj(),\n"@
    })
}

/// The body of a method wrapper's bridge call, from the lookup key on: the
/// declaring path, the raw (not the resolved) name, the full descriptor
/// string, the marshalled arguments, the return tag, and the extraction of a
/// non-void result.
pub open spec fn spec_call_tail(d: MethodDescriptorView) -> Seq<char> {
    let rt = spec_get_return_type(d.return_type);
    "            \""@ + d.declaring_path + "\",\n            \""@ + d.raw_name
        + "\",\n            \""@ + d.signature + "\",\n            &["@ + spec_inputs(
        d.arg_types,
        0,
    ) + "],\n            "@ + spec_return_type_name(rt) + "\n        );\n        Ok("@
        + spec_return_extraction(rt) + ")\n    }\n"@
}

/// The wrapper routine emitted for a static or instance member under its
/// resolved name `m`.
pub open spec fn spec_call_text(d: MethodDescriptorView, m: Seq<char>) -> Seq<char> {
    spec_call_head(d, m) + spec_call_tail(d)
}

/// The wrapper routine emitted for the member `d` under its resolved name
/// `m`.
pub open spec fn spec_member_text(d: MethodDescriptorView, m: Seq<char>) -> Seq<char> {
    if d.is_constructor {
        spec_ctor_text(d, m)
    } else {
        spec_call_text(d, m)
    }
}

/// Appends a constructor wrapper, matching `spec_ctor_text`.
#[verifier::rlimit(50)]
fn emit_ctor(out: &mut String, d: &MethodDescriptor, m: &str)
    ensures
        final(out)@ == old(out)@ + spec_ctor_text(d@, m@),
{
    out.append("    #[allow(non_snake_case)]\n    pub fn ");
    out.append(m);
    out.append("(");
    emit_args_sig(out, &d.arg_types);
    out.append(") -> Result<Self, JNIError> {\n        Ok(Self {\n            inner: create!(\"");
    out.append(d.declaring_path.as_str());
    out.append("\", \"");
    out.append(d.signature.as_str());
    out.append("\", &[");
    emit_inputs(out, &d.arg_types);
    out.append("])\n        })\n    }\n");
    proof {
        assert(out@ =~= old(out)@ + spec_ctor_text(d@, m@));
    }
}

/// Appends the signature opening of a method wrapper, matching
/// `spec_call_head`.
#[verifier::rlimit(50)]
fn emit_call_head(out: &mut String, d: &MethodDescriptor, m: &str)
    ensures
        final(out)@ == old(out)@ + spec_call_head(d@, m@),
{
    out.append("    #[allow(non_snake_case)]\n    pub fn ");
    out.append(m);
    out.append("(");
    if !d.is_static {
        out.append("instance: &'a GlobalRef, ");
    }
    emit_args_sig(out, &d.arg_types);
    out.append(") -> Result<");
    out.append(return_rust_type(&d.return_type));
    out.append(", JNIError> {\n        ");
    let rt = get_return_type(&d.return_type);
    if !(rt == ReturnType::Primitive(PrimitiveType::Void)) {
        out.append("let result =");
    }
    if d.is_static {
        out.append(" call_static!(\n");
    } else {
        out.append(" call!(\n            instance.as_obj(),\n");
    }
    proof {
        assert(out@ =~= old(out)@ + spec_call_head(d@, m@));
    }
}

/// Appends the bridge-call body of a method wrapper, matching
/// `spec_call_tail`.
#[verifier::rlimit(50)]
fn emit_call_tail(out: &mut String, d: &MethodDescriptor)
    ensures
        final(out)@ == old(out)@ + spec_call_tail(d@),
{
    let rt = get_return_type(&d.return_type);
    out.append("            \"");
    out.append(d.declaring_path.as_str());
    out.append("\",\n            \"");
    out.append(d.raw_name.as_str());
    out.append("\",\n            \"");
    out.append(d.signature.as_str());
    out.append("\",\n            &[");
    emit_inputs(out, &d.arg_types);
    out.append("],\n            ");
    let tag = convert_return_type_to_string(rt);
    out.append(tag.as_str());
    out.append("\n        );\n        Ok(");
    let extract = return_type_to_function(rt);
    out.append(extract.as_str());
    out.append(")\n    }\n");
    proof {
        assert(out@ =~= old(out)@ + spec_call_tail(d@));
    }
}

/// Appends a static- or instance-method wrapper, matching `spec_call_text`.
fn emit_call(out: &mut String, d: &MethodDescriptor, m: &str)
    ensures
        final(out)@ == old(out)@ + spec_call_text(d@, m@),
{
    emit_call_head(out, d, m);
    emit_call_tail(out, d);
    proof {
        assert((old(out)@ + spec_call_head(d@, m@)) + spec_call_tail(d@) =~= old(out)@ + (
        spec_call_head(d@, m@) + spec_call_tail(d@)));
    }
}

/// Appends the wrapper routine for member `d` under resolved name `m`,
/// matching `spec_member_text`.
fn emit_member(out: &mut String, d: &MethodDescriptor, m: &str)
    ensures
        final(out)@ == old(out)@ + spec_member_text(d@, m@),
{
    if d.is_constructor {
        emit_ctor(out, d, m);
    } else {
        emit_call(out, d, m);
    }
}

/// Registering one argument type in the run-wide enum-helper set: an object
/// type whose path carries the nested-type marker yields its helper once —
/// a path already in the set contributes nothing and leaves the set as it
/// is.  Any other type contributes nothing.
pub open spec fn spec_register_arg(t: TypeDescriptorView, set: Seq<Seq<char>>) -> (Seq<char>, Seq<
    Seq<char>,
>) {
    match t {
        TypeDescriptorView::Object(nm) => {
            if spec_contains_char(nm, '$') {
                if set.contains(nm) {
                    (Seq::empty(), set)
                } else {
                    (spec_enum_helper(nm), set.push(nm))
                }
            } else {
                (Seq::empty(), set)
            }
        },
        _ => (Seq::empty(), set),
    }
}

/// Registering the argument types from position `k` on, in order, threading
/// the enum-helper set.
pub open spec fn spec_register_args(
    args: Seq<TypeDescriptorView>,
    k: int,
    set: Seq<Seq<char>>,
) -> (Seq<char>, Seq<Seq<char>>)
    decreases args.len() - k when 0 <= k
{
    if k >= args.len() {
        (Seq::empty(), set)
    } else {
        let first = spec_register_arg(args[k], set);
        let rest = spec_register_args(args, k + 1, first.1);
        (first.0 + rest.0, rest.1)
    }
}

/// Appends the enum helpers owed by the arguments of one member and extends
/// the run-wide set, matching `spec_register_args`.
fn emit_register_args(out: &mut String, set: &mut Vec<String>, args: &Vec<TypeDescriptor>)
    ensures
        final(out)@ == old(out)@ + spec_register_args(
            args.deep_view(),
            0,
            old(set).deep_view(),
        ).0,
        final(set).deep_view() == spec_register_args(args.deep_view(), 0, old(set).deep_view()).1,
{
    let ghost adv = args.deep_view();
    let ghost goal = spec_register_args(adv, 0, old(set).deep_view());
    let ghost goal_text = old(out)@ + goal.0;
    let mut k: usize = 0;
    while k < args.len()
        invariant
            k <= args.len(),
            adv == args.deep_view(),
            adv.len() == args.len(),
            out@ + spec_register_args(adv, k as int, set.deep_view()).0 == goal_text,
            spec_register_args(adv, k as int, set.deep_view()).1 == goal.1,
        decreases args.len() - k,
    {
        let ghost cur = set.deep_view();
        proof {
            assert(adv[k as int] == args[k as int]@);
        }
        match &args[k] {
            TypeDescriptor::Object(nm) => {
                if contains_char(nm.as_str(), '$') {
                    let mut found: bool = false;
                    let mut t: usize = 0;
                    while t < set.len()
                        invariant
                            t <= set.len(),
                            cur == set.deep_view(),
                            cur.len() == set.len(),
                            !found ==> forall|u: int| 0 <= u < t ==> cur[u] != nm@,
                            found ==> cur.contains(nm@),
                        decreases set.len() - t,
                    {
                        if !found && set[t] == *nm {
                            found = true;
                            proof {
                                assert(cur[t as int] == nm@);
                            }
                        }
                        t = t + 1;
                    }
                    if found {
                        proof {
                            assert(spec_register_arg(adv[k as int], cur) == (
                                Seq::<char>::empty(),
                                cur,
                            ));
                            assert(out@ + Seq::<char>::empty() =~= out@);
                        }
                    } else {
                        proof {
                            if cur.contains(nm@) {
                                let w = choose|u: int| 0 <= u < cur.len() && cur[u] == nm@;
                                assert(false);
                            }
                        }
                        emit_enum_helper(out, nm.as_str());
                        set.push(nm.clone());
                        proof {
                            assert(set.deep_view() =~= cur.push(nm@));
                        }
                    }
                } else {
                    proof {
                        assert(out@ + Seq::<char>::empty() =~= out@);
                    }
                }
            },
            _ => {
                proof {
                    assert(out@ + Seq::<char>::empty() =~= out@);
                }
            },
        }
        k = k + 1;
    }
    proof {
        assert(out@ + Seq::<char>::empty() =~= out@);
    }
}

/// The container type and implementation opening emitted for struct name
/// `s`.
pub open spec fn spec_struct_head(s: Seq<char>) -> Seq<char> {
    "#[allow(non_snake_case)]\n#[allow(non_camel_case_types)]\npub struct "@ + s
        + " {\n    inner: GlobalRef,\n}\n\n#[allow(non_snake_case)]\n#[allow(non_camel_case_types)]\nimpl<'a> "@
        + s + " {\n"@
}

/// The accessor for the wrapped handle and the implementation closing.
pub open spec fn spec_impl_tail() -> Seq<char> {
    "    pub fn inner(&self) -> GlobalRef {\n        self.inner.clone()\n    }\n}\n\n"@
}

/// The member section of one class from position `k` on: each member's enum
/// helpers (the run-wide set threading through) followed by its wrapper
/// routine under its resolved name.
pub open spec fn spec_members_text(
    ms: Seq<MethodDescriptorView>,
    k: int,
    set: Seq<Seq<char>>,
) -> (Seq<char>, Seq<Seq<char>>)
    decreases ms.len() - k when 0 <= k
{
    if k >= ms.len() {
        (Seq::empty(), set)
    } else {
        let reg = spec_register_args(ms[k].arg_types, 0, set);
        let mtxt = spec_member_text(ms[k], spec_resolved_name(ms, k));
        let rest = spec_members_text(ms, k + 1, reg.1);
        (reg.0 + mtxt + rest.0, rest.1)
    }
}

/// The full text emitted for one class — container type, member section,
/// accessor — and the enum-helper set as the class leaves it.
pub open spec fn spec_class_text(c: ClassBindingView, set: Seq<Seq<char>>) -> (Seq<char>, Seq<
    Seq<char>,
>) {
    let s = spec_replace_char(c.class_name, '.', "_"@);
    let ms = spec_members_text(c.members, 0, set);
    (spec_struct_head(s) + ms.0 + spec_impl_tail(), ms.1)
}

/// Appends the text of one class and extends the run-wide enum-helper set,
/// matching `spec_class_text`.
fn emit_class(out: &mut String, set: &mut Vec<String>, c: &ClassBinding)
    ensures
        final(out)@ == old(out)@ + spec_class_text(c@, old(set).deep_view()).0,
        final(set).deep_view() == spec_class_text(c@, old(set).deep_view()).1,
{
    let ghost mdv = c.members.deep_view();
    let ghost goal = spec_members_text(mdv, 0, old(set).deep_view());
    let struct_name = replace_char(c.class_name.as_str(), '.', "_");
    out.append("#[allow(non_snake_case)]\n#[allow(non_camel_case_types)]\npub struct ");
    out.append(struct_name.as_str());
    out.append(
        " {\n    inner: GlobalRef,\n}\n\n#[allow(non_snake_case)]\n#[allow(non_camel_case_types)]\nimpl<'a> ",
    );
    out.append(struct_name.as_str());
    out.append(" {\n");
    let ghost base = out@;
    proof {
        assert(base =~= old(out)@ + spec_struct_head(spec_replace_char(c@.class_name, '.', "_"@)));
    }
    let names = resolve_names(&c.members);
    let mut k: usize = 0;
    while k < c.members.len()
        invariant
            k <= c.members.len(),
            mdv == c.members.deep_view(),
            mdv.len() == c.members.len(),
            names.deep_view().len() == c.members.len(),
            forall|j: int|
                0 <= j < mdv.len() ==> names.deep_view()[j] == spec_resolved_name(mdv, j),
            out@ + spec_members_text(mdv, k as int, set.deep_view()).0 == base + goal.0,
            spec_members_text(mdv, k as int, set.deep_view()).1 == goal.1,
        decreases c.members.len() - k,
    {
        let ghost cur = set.deep_view();
        proof {
            assert(mdv[k as int] == c.members[k as int]@);
        }
        emit_register_args(out, set, &c.members[k].arg_types);
        emit_member(out, &c.members[k], names[k].as_str());
        proof {
            assert(names[k as int]@ == names.deep_view()[k as int]);
            assert(out@ + spec_members_text(mdv, k + 1, set.deep_view()).0 == base + goal.0);
        }
        k = k + 1;
    }
    out.append("    pub fn inner(&self) -> GlobalRef {\n        self.inner.clone()\n    }\n}\n\n");
    proof {
        assert(spec_members_text(mdv, mdv.len() as int, goal.1).0 =~= Seq::<char>::empty());
        assert(out@ =~= old(out)@ + spec_class_text(c@, old(set).deep_view()).0);
    }
}

/// The fixed import header of the generated source unit.
pub open spec fn spec_header_text() -> Seq<char> {
    "use auto_jni::jni::objects::{JObject, GlobalRef};\nuse auto_jni::errors::JNIError;\nuse auto_jni::{call, call_static, create};\nuse auto_jni::jni::objects::JValue;\nuse auto_jni::jni::signature::{Primitive, ReturnType};\nuse auto_jni::jni;\nuse auto_jni::once_cell;\nuse auto_jni::lazy_static::lazy_static;\nuse auto_jni::jni::{InitArgsBuilder, JNIEnv, JNIVersion, JavaVM};\nuse auto_jni::jni::objects::JObjectArray;\n\n"@
}

/// The opening of the process-wide virtual-machine setup, up to where the
/// option lines go.
pub open spec fn spec_jvm_pre() -> Seq<char> {
    "lazy_static! { static ref JAVA: JavaVM = create_jvm(); }\n\nfn create_jvm() -> JavaVM {\n    let jvm_args = InitArgsBuilder::new()\n        .version(JNIVersion::V8)\n"@
}

/// The closing of the virtual-machine setup and the accessor for the
/// current thread's attached environment.
pub open spec fn spec_jvm_post() -> Seq<char> {
    "        .build().unwrap();\n    JavaVM::new(jvm_args).unwrap()\n}\n\npub fn java() -> JNIEnv<'static> {\n    JAVA.attach_current_thread_permanently().unwrap()\n}\n\n"@
}

/// One `.option(..)` line per startup option from position `k` on, each
/// option's backslashes escaped for embedding in a string literal.
pub open spec fn spec_option_lines(os: Seq<Seq<char>>, k: int) -> Seq<char>
    decreases os.len() - k when 0 <= k
{
    if k >= os.len() {
        Seq::empty()
    } else {
        "        .option(\""@ + spec_replace_char(os[k], '\\', "\\\\"@) + "\")\n"@
            + spec_option_lines(os, k + 1)
    }
}

/// The virtual-machine setup text for the given startup options.
pub open spec fn spec_jvm_text(opts: Option<Seq<Seq<char>>>) -> Seq<char> {
    spec_jvm_pre() + (match opts {
        Some(os) => spec_option_lines(os, 0),
        None => Seq::empty(),
    }) + spec_jvm_post()
}

/// The class sections from position `k` on, the enum-helper set threading
/// through the whole run.
pub open spec fn spec_emit_classes(cs: Seq<ClassBindingView>, k: int, set: Seq<Seq<char>>) -> Seq<
    char,
>
    decreases cs.len() - k when 0 <= k
{
    if k >= cs.len() {
        Seq::empty()
    } else {
        let c = spec_class_text(cs[k], set);
        c.0 + spec_emit_classes(cs, k + 1, c.1)
    }
}

/// The complete generated source unit: header, virtual-machine setup, then
/// one section per class in order, with the enum-helper set starting empty.
pub open spec fn spec_generate(
    cs: Seq<ClassBindingView>,
    opts: Option<Seq<Seq<char>>>,
) -> Seq<char> {
    spec_header_text() + spec_jvm_text(opts) + spec_emit_classes(cs, 0, Seq::empty())
}

/// Compiles the class models into the generated source unit, matching
/// `spec_generate` — the whole output is a function of the inputs alone, so
/// generation is deterministic.
pub fn generate_bindings_source(
    classes: &Vec<ClassBinding>,
    jvm_options: &Option<Vec<String>>,
) -> (r: String)
    ensures
        r@ == spec_generate(classes.deep_view(), jvm_options.deep_view()),
{
    let mut out = String::new();
    out.append(
        "use auto_jni::jni::objects::{JObject, GlobalRef};\nuse auto_jni::errors::JNIError;\nuse auto_jni::{call, call_static, create};\nuse auto_jni::jni::objects::JValue;\nuse auto_jni::jni::signature::{Primitive, ReturnType};\nuse auto_jni::jni;\nuse auto_jni::once_cell;\nuse auto_jni::lazy_static::lazy_static;\nuse auto_jni::jni::{InitArgsBuilder, JNIEnv, JNIVersion, JavaVM};\nuse auto_jni::jni::objects::JObjectArray;\n\n",
    );
    out.append(
        "lazy_static! { static ref JAVA: JavaVM = create_jvm(); }\n\nfn create_jvm() -> JavaVM {\n    let jvm_args = InitArgsBuilder::new()\n        .version(JNIVersion::V8)\n",
    );
    match jvm_options {
        Some(os) => {
            let ghost odv = os.deep_view();
            let ghost pre = out@;
            let mut k: usize = 0;
            while k < os.len()
                invariant
                    k <= os.len(),
                    odv == os.deep_view(),
                    odv.len() == os.len(),
                    out@ + spec_option_lines(odv, k as int) == pre + spec_option_lines(odv, 0),
                decreases os.len() - k,
            {
                out.append("        .option(\"");
                let escaped = replace_char(os[k].as_str(), '\\', "\\\\");
                out.append(escaped.as_str());
                out.append("\")\n");
                proof {
                    assert(odv[k as int] == os[k as int]@);
                    assert(out@ + spec_option_lines(odv, k + 1) == pre + spec_option_lines(
                        odv,
                        0,
                    ));
                }
                k = k + 1;
            }
            proof {
                assert(spec_option_lines(odv, odv.len() as int) =~= Seq::<char>::empty());
                assert(out@ =~= out@ + spec_option_lines(odv, odv.len() as int));
            }
        },
        None => {
        },
    }
    out.append(
        "        .build().unwrap();\n    JavaVM::new(jvm_args).unwrap()\n}\n\npub fn java() -> JNIEnv<'static> {\n    JAVA.attach_current_thread_permanently().unwrap()\n}\n\n",
    );
    let ghost cdv = classes.deep_view();
    let ghost head = out@;
    proof {
        assert(head =~= spec_header_text() + spec_jvm_text(jvm_options.deep_view()));
    }
    let mut set: Vec<String> = Vec::new();
    let mut k: usize = 0;
    proof {
        assert(set.deep_view() =~= Seq::<Seq<char>>::empty());
    }
    while k < classes.len()
        invariant
            k <= classes.len(),
            cdv == classes.deep_view(),
            cdv.len() == classes.len(),
            out@ + spec_emit_classes(cdv, k as int, set.deep_view()) == head + spec_emit_classes(
                cdv,
                0,
                Seq::empty(),
            ),
        decreases classes.len() - k,
    {
        let ghost cur = set.deep_view();
        proof {
            assert(cdv[k as int] == classes[k as int]@);
        }
        emit_class(&mut out, &mut set, &classes[k]);
        proof {
            assert(out@ + spec_emit_classes(cdv, k + 1, set.deep_view()) == head
                + spec_emit_classes(cdv, 0, Seq::empty()));
        }
        k = k + 1;
    }
    proof {
        assert(spec_emit_classes(cdv, cdv.len() as int, set.deep_view()) =~= Seq::<char>::empty());
        assert(out@ =~= spec_generate(classes.deep_view(), jvm_options.deep_view()));
    }
    out
}

/// Builds the model of one requested class from its disassembly text.
pub fn bind_class(class_name: &str, disassembly: &str) -> (c: ClassBinding)
    ensures
        c@.class_name == class_name@,
        c@.members == crate::javap::spec_parse_javap(class_name@, disassembly@),
{
    ClassBinding {
        class_name: String::from_str(class_name),
        members: crate::javap::parse_javap_text(class_name, disassembly),
    }
}

/// Registering a nested-type path is idempotent: once a path stands in the
/// run-wide set, registering it again — for any later argument, member or
/// class of the same run — emits no second helper and leaves the set as it
/// is, so each distinct path gets exactly one helper per run.
pub proof fn lemma_enum_registration_idempotent(set: Seq<Seq<char>>, nm: Seq<char>)
    requires
        spec_contains_char(nm, '$'),
    ensures
        ({
            let first = spec_register_arg(TypeDescriptorView::Object(nm), set);
            let second = spec_register_arg(TypeDescriptorView::Object(nm), first.1);
            second.0 == Seq::<char>::empty() && second.1 == first.1
        }),
{
    let first = spec_register_arg(TypeDescriptorView::Object(nm), set);
    if !set.contains(nm) {
        assert(first.1 == set.push(nm));
        assert(set.push(nm)[set.len() as int] == nm);
        assert(first.1.contains(nm));
    }
}

/// A class with no parsed members still produces a complete constructible
/// container type — the struct, the implementation and the handle accessor —
/// with no wrapper routines between them, and leaves the enum-helper set
/// unchanged.
pub proof fn lemma_empty_class_emission(c: ClassBindingView, set: Seq<Seq<char>>)
    requires
        c.members.len() == 0,
    ensures
        spec_class_text(c, set).0 == spec_struct_head(spec_replace_char(c.class_name, '.', "_"@))
            + spec_impl_tail(),
        spec_class_text(c, set).1 == set,
{
    assert(spec_members_text(c.members, 0, set).0 =~= Seq::<char>::empty());
    assert(spec_class_text(c, set).0 =~= spec_struct_head(
        spec_replace_char(c.class_name, '.', "_"@),
    ) + spec_impl_tail());
}

/// Generation is deterministic: any two outputs that meet the generator's
/// contract for models and options that agree are byte-identical.
pub proof fn lemma_generation_deterministic(
    classes1: Seq<ClassBindingView>,
    opts1: Option<Seq<Seq<char>>>,
    out1: Seq<char>,
    classes2: Seq<ClassBindingView>,
    opts2: Option<Seq<Seq<char>>>,
    out2: Seq<char>,
)
    requires
        out1 == spec_generate(classes1, opts1),
        out2 == spec_generate(classes2, opts2),
        classes1 == classes2,
        opts1 == opts2,
    ensures
        out1 == out2,
{
}

} // verus!

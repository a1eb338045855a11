//! The virtual machine's compact type encoding: the `TypeDescriptor` model, a
//! character-by-character parser for the `(args)return` descriptor strings
//! that disassembly output carries, and the mapping of each type onto the
//! native kinds that generated wrappers use.

use vstd::prelude::*;

use crate::text::{char_pred, find_char, lemma_spec_find, lemma_spec_find_stops, spec_find};

verus! {

/// The fixed-width kinds a one-character descriptor token stands for.
#[derive(Debug, Clone, Copy, PartialEq, Eq, Structural)]
pub enum PrimitiveType {
    Int,
    Long,
    Double,
    Float,
    Boolean,
    Byte,
    Char,
    Short,
    Void,
}

/// One parsed type: a primitive, an object with its slash-delimited path
/// (without the `L` prefix and `;` terminator), or an array of an element
/// type.
#[derive(Debug, PartialEq)]
pub enum TypeDescriptor {
    Primitive(PrimitiveType),
    Object(String),
    Array(Box<TypeDescriptor>),
}

/// The mathematical model of a `TypeDescriptor`: object paths are character
/// sequences.
pub enum TypeDescriptorView {
    Primitive(PrimitiveType),
    Object(Seq<char>),
    Array(Box<TypeDescriptorView>),
}

/// The model of `t`.
pub open spec fn td_view(t: TypeDescriptor) -> TypeDescriptorView
    decreases t,
{
    match t {
        TypeDescriptor::Primitive(k) => TypeDescriptorView::Primitive(k),
        TypeDescriptor::Object(s) => TypeDescriptorView::Object(s@),
        TypeDescriptor::Array(e) => TypeDescriptorView::Array(Box::new(td_view(*e))),
    }
}

impl View for TypeDescriptor {
    type V = TypeDescriptorView;

    open spec fn view(&self) -> TypeDescriptorView {
        td_view(*self)
    }
}

impl DeepView for TypeDescriptor {
    type V = TypeDescriptorView;

    open spec fn deep_view(&self) -> TypeDescriptorView {
        td_view(*self)
    }
}

/// The eight one-character primitive tokens accepted in argument position.
pub open spec fn spec_is_prim_char(c: char) -> bool {
    c == 'I' || c == 'J' || c == 'D' || c == 'F' || c == 'B' || c == 'C' || c == 'S' || c == 'Z'
}

/// The primitive kind of a one-character token (`V` included, for return and
/// array-element positions).
pub open spec fn spec_prim_of_char(c: char) -> PrimitiveType {
    if c == 'I' {
        PrimitiveType::Int
    } else if c == 'J' {
        PrimitiveType::Long
    } else if c == 'D' {
        PrimitiveType::Double
    } else if c == 'F' {
        PrimitiveType::Float
    } else if c == 'B' {
        PrimitiveType::Byte
    } else if c == 'C' {
        PrimitiveType::Char
    } else if c == 'S' {
        PrimitiveType::Short
    } else if c == 'Z' {
        PrimitiveType::Boolean
    } else {
        PrimitiveType::Void
    }
}

/// Characters that end an object path inside an argument list: the path
/// terminator itself, or the close of the argument section.
pub open spec fn name_stop() -> spec_fn(char) -> bool {
    |c: char| c == ';' || c == ')'
}

/// An array element named by a single character: a primitive kind where the
/// character is a primitive token, otherwise (degrading gracefully) an object
/// whose path is that character.
pub open spec fn spec_elem_of_char(c: char) -> TypeDescriptorView {
    if spec_is_prim_char(c) || c == 'V' {
        TypeDescriptorView::Primitive(spec_prim_of_char(c))
    } else {
        TypeDescriptorView::Object(seq![c])
    }
}

/// Parses the types named by `s` until its end or a `)`:
/// `L<path>;` is an object, a primitive token is a primitive, `[` makes an
/// array of the element that follows, and any other character is skipped.
/// An object path missing its `;` extends to the end of the section.
pub open spec fn spec_parse_type_list(s: Seq<char>) -> Seq<TypeDescriptorView>
    decreases s.len(),
{
    if s.len() == 0 || s[0] == ')' {
        Seq::empty()
    } else if s[0] == 'L' {
        let e = spec_find(s, 1, name_stop());
        proof {
            lemma_spec_find(s, 1, name_stop());
        }
        let j = if e < s.len() && s[e] == ';' {
            e + 1
        } else {
            e
        };
        seq![TypeDescriptorView::Object(s.subrange(1, e))] + spec_parse_type_list(s.skip(j))
    } else if spec_is_prim_char(s[0]) {
        seq![TypeDescriptorView::Primitive(spec_prim_of_char(s[0]))] + spec_parse_type_list(
            s.skip(1),
        )
    } else if s[0] == '[' {
        if s.len() == 1 || s[1] == ')' {
            seq![TypeDescriptorView::Array(Box::new(TypeDescriptorView::Object(Seq::empty())))]
                + spec_parse_type_list(s.skip(1))
        } else if s[1] == 'L' {
            let e = spec_find(s, 2, name_stop());
            proof {
                lemma_spec_find(s, 2, name_stop());
            }
            let j = if e < s.len() && s[e] == ';' {
                e + 1
            } else {
                e
            };
            seq![TypeDescriptorView::Array(Box::new(TypeDescriptorView::Object(s.subrange(2, e))))]
                + spec_parse_type_list(s.skip(j))
        } else {
            seq![TypeDescriptorView::Array(Box::new(spec_elem_of_char(s[1])))]
                + spec_parse_type_list(s.skip(2))
        }
    } else {
        spec_parse_type_list(s.skip(1))
    }
}

/// A character that does not open an argument section.
pub open spec fn not_open() -> spec_fn(char) -> bool {
    |c: char| c != '('
}

/// The argument types of a full descriptor string: every leading `(` is
/// stripped, then types are read until the first `)`.
pub open spec fn spec_parse_descriptor_args(d: Seq<char>) -> Seq<TypeDescriptorView> {
    spec_parse_type_list(d.skip(spec_find(d, 0, not_open())))
}

/// Parses one complete type token, as found in return position:
/// `L` opens an object path running to the first `;` or the end; `[` makes an
/// array of the token that follows; a lone primitive character is a
/// primitive; anything else degrades to an object whose path is the whole
/// token, and an empty token to an object with an empty path.
pub open spec fn spec_parse_single(s: Seq<char>) -> TypeDescriptorView
    decreases s.len(),
{
    if s.len() == 0 {
        TypeDescriptorView::Object(Seq::empty())
    } else if s[0] == 'L' {
        TypeDescriptorView::Object(s.subrange(1, spec_find(s, 1, char_pred(';'))))
    } else if s[0] == '[' {
        TypeDescriptorView::Array(Box::new(spec_parse_single(s.skip(1))))
    } else if s.len() == 1 && (spec_is_prim_char(s[0]) || s[0] == 'V') {
        TypeDescriptorView::Primitive(spec_prim_of_char(s[0]))
    } else {
        TypeDescriptorView::Object(s)
    }
}

/// The return type of a full descriptor string: the token between the first
/// `)` and the next `)` or the end; with no `)` at all the token is empty.
pub open spec fn spec_parse_descriptor_return(d: Seq<char>) -> TypeDescriptorView {
    let p = spec_find(d, 0, char_pred(')'));
    if p == d.len() {
        spec_parse_single(Seq::empty())
    } else {
        spec_parse_single(d.subrange(p + 1, spec_find(d, p + 1, char_pred(')'))))
    }
}

/// The shape a wrapper's return value takes at the foreign-call bridge: a
/// tagged primitive, or an object handle (which arrays also come back as).
#[derive(Debug, Clone, Copy, PartialEq, Eq, Structural)]
pub enum ReturnType {
    Primitive(PrimitiveType),
    Object,
}

/// The native source type an argument of type `t` is declared with.
pub open spec fn spec_java_type_to_rust(t: TypeDescriptorView) -> Seq<char> {
    match t {
        TypeDescriptorView::Primitive(k) => match k {
            PrimitiveType::Int => "i32"@,
            PrimitiveType::Long => "i64"@,
            PrimitiveType::Double => "f64"@,
            PrimitiveType::Float => "f32"@,
            PrimitiveType::Boolean => "bool"@,
            PrimitiveType::Byte => "i8"@,
            PrimitiveType::Char => "u16"@,
            PrimitiveType::Short => "i16"@,
            PrimitiveType::Void => "()"@,
        },
        TypeDescriptorView::Object(_) => "&JObject"@,
        TypeDescriptorView::Array(_) => "&JObjectArray"@,
    }
}

/// Maps a parsed type to the native source type of an argument of that type,
/// matching `spec_java_type_to_rust`.
pub fn java_type_to_rust(java_type: &TypeDescriptor) -> (r: &'static str)
    ensures
        r@ == spec_java_type_to_rust(java_type@),
{
    match java_type {
        TypeDescriptor::Primitive(k) => match k {
            PrimitiveType::Int => "i32",
            PrimitiveType::Long => "i64",
            PrimitiveType::Double => "f64",
            PrimitiveType::Float => "f32",
            PrimitiveType::Boolean => "bool",
            PrimitiveType::Byte => "i8",
            PrimitiveType::Char => "u16",
            PrimitiveType::Short => "i16",
            PrimitiveType::Void => "()",
        },
        TypeDescriptor::Object(_) => "&JObject",
        TypeDescriptor::Array(_) => "&JObjectArray",
    }
}

/// The argument-cell expression that marshals `name` (an argument of type
/// `t`) for the foreign-call bridge.
pub open spec fn spec_get_input_type(name: Seq<char>, t: TypeDescriptorView) -> Seq<char> {
    match t {
        TypeDescriptorView::Primitive(k) => match k {
            PrimitiveType::Int => "JValue::Int("@ + name + ").as_jni()"@,
            PrimitiveType::Long => "JValue::Long("@ + name + ").as_jni()"@,
            PrimitiveType::Double => "JValue::Double("@ + name + ").as_jni()"@,
            PrimitiveType::Float => "JValue::Float("@ + name + ").as_jni()"@,
            PrimitiveType::Boolean => "JValue::Bool("@ + name + " as u8).as_jni()"@,
            PrimitiveType::Byte => "JValue::Byte("@ + name + ").as_jni()"@,
            PrimitiveType::Char => "JValue::Char("@ + name + ").as_jni()"@,
            PrimitiveType::Short => "JValue::Short("@ + name + ").as_jni()"@,
            PrimitiveType::Void => "JValue::Object("@ + name + ").as_jni()"@,
        },
        TypeDescriptorView::Object(_) => "JValue::Object("@ + name + ").as_jni()"@,
        TypeDescriptorView::Array(_) => "JValue::Object("@ + name + ").as_jni()"@,
    }
}

/// Renders the marshalling expression for one argument, matching
/// `spec_get_input_type`.
pub fn get_input_type(arg_name: &str, arg_type: &TypeDescriptor) -> (r: String)
    ensures
        r@ == spec_get_input_type(arg_name@, arg_type@),
{
    let head = match arg_type {
        TypeDescriptor::Primitive(k) => match k {
            PrimitiveType::Int => "JValue::Int(",
            PrimitiveType::Long => "JValue::Long(",
            PrimitiveType::Double => "JValue::Double(",
            PrimitiveType::Float => "JValue::Float(",
            PrimitiveType::Boolean => "JValue::Bool(",
            PrimitiveType::Byte => "JValue::Byte(",
            PrimitiveType::Char => "JValue::Char(",
            PrimitiveType::Short => "JValue::Short(",
            PrimitiveType::Void => "JValue::Object(",
        },
        TypeDescriptor::Object(_) => "JValue::Object(",
        TypeDescriptor::Array(_) => "JValue::Object(",
    };
    let tail = match arg_type {
        TypeDescriptor::Primitive(k) => match k {
            PrimitiveType::Boolean => " as u8).as_jni()",
            _ => ").as_jni()",
        },
        _ => ").as_jni()",
    };
    let mut out = String::from_str(head);
    out.append(arg_name);
    out.append(tail);
    out
}

/// The bridge return shape of a parsed type: primitives keep their kind,
/// objects and arrays come back as object handles.
pub open spec fn spec_get_return_type(t: TypeDescriptorView) -> ReturnType {
    match t {
        TypeDescriptorView::Primitive(k) => ReturnType::Primitive(k),
        TypeDescriptorView::Object(_) => ReturnType::Object,
        TypeDescriptorView::Array(_) => ReturnType::Object,
    }
}

/// Maps a parsed type to its bridge return shape, matching
/// `spec_get_return_type`.
pub fn get_return_type(return_type: &TypeDescriptor) -> (r: ReturnType)
    ensures
        r == spec_get_return_type(return_type@),
{
    match return_type {
        TypeDescriptor::Primitive(k) => ReturnType::Primitive(*k),
        TypeDescriptor::Object(_) => ReturnType::Object,
        TypeDescriptor::Array(_) => ReturnType::Object,
    }
}

/// The source text naming the bridge return tag `r` in generated code.
pub open spec fn spec_return_type_name(r: ReturnType) -> Seq<char> {
    match r {
        ReturnType::Primitive(k) => match k {
            PrimitiveType::Int => "ReturnType::Primitive(Primitive::Int)"@,
            PrimitiveType::Long => "ReturnType::Primitive(Primitive::Long)"@,
            PrimitiveType::Double => "ReturnType::Primitive(Primitive::Double)"@,
            PrimitiveType::Float => "ReturnType::Primitive(Primitive::Float)"@,
            PrimitiveType::Boolean => "ReturnType::Primitive(Primitive::Boolean)"@,
            PrimitiveType::Byte => "ReturnType::Primitive(Primitive::Byte)"@,
            PrimitiveType::Char => "ReturnType::Primitive(Primitive::Char)"@,
            PrimitiveType::Short => "ReturnType::Primitive(Primitive::Short)"@,
            PrimitiveType::Void => "ReturnType::Primitive(Primitive::Void)"@,
        },
        ReturnType::Object => "ReturnType::Object"@,
    }
}

/// Renders a bridge return tag as source text, matching
/// `spec_return_type_name`.
pub fn convert_return_type_to_string(return_type: ReturnType) -> (r: String)
    ensures
        r@ == spec_return_type_name(return_type),
{
    String::from_str(
        match return_type {
            ReturnType::Primitive(k) => match k {
                PrimitiveType::Int => "ReturnType::Primitive(Primitive::Int)",
                PrimitiveType::Long => "ReturnType::Primitive(Primitive::Long)",
                PrimitiveType::Double => "ReturnType::Primitive(Primitive::Double)",
                PrimitiveType::Float => "ReturnType::Primitive(Primitive::Float)",
                PrimitiveType::Boolean => "ReturnType::Primitive(Primitive::Boolean)",
                PrimitiveType::Byte => "ReturnType::Primitive(Primitive::Byte)",
                PrimitiveType::Char => "ReturnType::Primitive(Primitive::Char)",
                PrimitiveType::Short => "ReturnType::Primitive(Primitive::Short)",
                PrimitiveType::Void => "ReturnType::Primitive(Primitive::Void)",
            },
            ReturnType::Object => "ReturnType::Object",
        },
    )
}

/// The source expression that extracts a wrapper's result from the bridge's
/// tagged return cell: nothing to extract for void, a typed accessor
/// otherwise.
pub open spec fn spec_return_extraction(r: ReturnType) -> Seq<char> {
    match r {
        ReturnType::Primitive(k) => match k {
            PrimitiveType::Int => "result.i().unwrap()"@,
            PrimitiveType::Long => "result.j().unwrap()"@,
            PrimitiveType::Double => "result.d().unwrap()"@,
            PrimitiveType::Float => "result.f().unwrap()"@,
            PrimitiveType::Boolean => "result.z().unwrap()"@,
            PrimitiveType::Byte => "result.b().unwrap()"@,
            PrimitiveType::Char => "result.c().unwrap()"@,
            PrimitiveType::Short => "result.s().unwrap()"@,
            PrimitiveType::Void => "()"@,
        },
        ReturnType::Object => "result.l().unwrap()"@,
    }
}

/// Renders the extraction expression for a bridge return tag, matching
/// `spec_return_extraction`.
pub fn return_type_to_function(return_type: ReturnType) -> (r: String)
    ensures
        r@ == spec_return_extraction(return_type),
{
    String::from_str(
        match return_type {
            ReturnType::Primitive(k) => match k {
                PrimitiveType::Int => "result.i().unwrap()",
                PrimitiveType::Long => "result.j().unwrap()",
                PrimitiveType::Double => "result.d().unwrap()",
                PrimitiveType::Float => "result.f().unwrap()",
                PrimitiveType::Boolean => "result.z().unwrap()",
                PrimitiveType::Byte => "result.b().unwrap()",
                PrimitiveType::Char => "result.c().unwrap()",
                PrimitiveType::Short => "result.s().unwrap()",
                PrimitiveType::Void => "()",
            },
            ReturnType::Object => "result.l().unwrap()",
        },
    )
}

/// Decides `spec_is_prim_char`.
pub fn is_prim_char(c: char) -> (r: bool)
    ensures
        r == spec_is_prim_char(c),
{
    c == 'I' || c == 'J' || c == 'D' || c == 'F' || c == 'B' || c == 'C' || c == 'S' || c == 'Z'
}

/// The primitive kind of a one-character token, matching `spec_prim_of_char`.
pub fn prim_of_char(c: char) -> (r: PrimitiveType)
    ensures
        r == spec_prim_of_char(c),
{
    if c == 'I' {
        PrimitiveType::Int
    } else if c == 'J' {
        PrimitiveType::Long
    } else if c == 'D' {
        PrimitiveType::Double
    } else if c == 'F' {
        PrimitiveType::Float
    } else if c == 'B' {
        PrimitiveType::Byte
    } else if c == 'C' {
        PrimitiveType::Char
    } else if c == 'S' {
        PrimitiveType::Short
    } else if c == 'Z' {
        PrimitiveType::Boolean
    } else {
        PrimitiveType::Void
    }
}

/// Scans for the first object-path terminator (`;` or `)`) at or after `i`.
fn find_name_end(s: &str, i: usize) -> (r: usize)
    requires
        i <= s@.len(),
    ensures
        r == spec_find(s@, i as int, name_stop()),
        i <= r <= s@.len(),
{
    let n = s.unicode_len();
    let mut j = i;
    while j < n
        invariant
            i <= j <= n,
            n == s@.len(),
            forall|k: int| i <= k < j ==> !(name_stop()(s@[k])),
        decreases n - j,
    {
        let c = s.get_char(j);
        if c == ';' || c == ')' {
            proof {
                lemma_spec_find_stops(s@, i as int, j as int, name_stop());
            }
            return j;
        }
        j = j + 1;
    }
    proof {
        lemma_spec_find_stops(s@, i as int, n as int, name_stop());
    }
    n
}

/// Parses the argument-type list of a descriptor string, the canonical
/// `(args)return` form printed on a disassembly `descriptor:` line, matching
/// `spec_parse_descriptor_args`: every leading `(` is skipped, then one
/// `TypeDescriptor` is read per token until the first `)` or the end.
#[verifier::rlimit(50)]
pub fn parse_descriptor_args(descriptor: &str) -> (r: Vec<TypeDescriptor>)
    ensures
        r.deep_view() == spec_parse_descriptor_args(descriptor@),
{
    let n = descriptor.unicode_len();
    let mut i: usize = 0;
    while i < n && descriptor.get_char(i) == '('
        invariant
            i <= n,
            n == descriptor@.len(),
            forall|k: int| 0 <= k < i ==> !(not_open()(descriptor@[k])),
        decreases n - i,
    {
        i = i + 1;
    }
    proof {
        lemma_spec_find_stops(descriptor@, 0, i as int, not_open());
    }
    let ghost start = i as int;
    let mut out: Vec<TypeDescriptor> = Vec::new();
    proof {
        assert(out.deep_view() =~= Seq::<TypeDescriptorView>::empty());
        assert(out.deep_view() + spec_parse_type_list(descriptor@.skip(start))
            =~= spec_parse_type_list(descriptor@.skip(start)));
    }
    while i < n
        invariant
            start <= i as int <= n,
            n == descriptor@.len(),
            out.deep_view() + spec_parse_type_list(descriptor@.skip(i as int))
                == spec_parse_type_list(descriptor@.skip(start)),
        decreases n - i,
    {
        let ghost pre = out.deep_view();
        let ghost rest = descriptor@.skip(i as int);
        let c = descriptor.get_char(i);
        proof {
            assert(rest[0] == descriptor@[i as int]);
        }
        if c == ')' {
            proof {
                assert(spec_parse_type_list(rest) =~= Seq::<TypeDescriptorView>::empty());
                assert(descriptor@.skip(n as int).len() == 0);
                assert(spec_parse_type_list(descriptor@.skip(n as int))
                    =~= Seq::<TypeDescriptorView>::empty());
                assert(out.deep_view() + spec_parse_type_list(descriptor@.skip(n as int))
                    =~= out.deep_view() + spec_parse_type_list(rest));
            }
            i = n;
        } else if c == 'L' {
            let e = find_name_end(descriptor, i + 1);
            proof {
                lemma_spec_find(descriptor@, i + 1, name_stop());
                assert forall|k: int| 1 <= k < e - i implies !(name_stop()(rest[k])) by {
                    assert(rest[k] == descriptor@[i + k]);
                    assert(!(name_stop()(descriptor@[i + k])));
                }
                if e < n {
                    assert(rest[e - i] == descriptor@[e as int]);
                }
                lemma_spec_find_stops(rest, 1, e - i, name_stop());
            }
            let je = if e < n && descriptor.get_char(e) == ';' {
                e + 1
            } else {
                e
            };
            let name = String::from_str(descriptor.substring_char(i + 1, e));
            out.push(TypeDescriptor::Object(name));
            proof {
                assert(rest.subrange(1, e - i) =~= descriptor@.subrange(i + 1, e as int));
                assert(spec_parse_type_list(rest) == seq![
                    TypeDescriptorView::Object(rest.subrange(1, e - i)),
                ] + spec_parse_type_list(rest.skip(je - i)));
                assert(rest.skip(je - i) =~= descriptor@.skip(je as int));
                assert(out.deep_view() =~= pre + seq![TypeDescriptorView::Object(name@)]);
                assert(out.deep_view() + spec_parse_type_list(descriptor@.skip(je as int))
                    =~= pre + spec_parse_type_list(rest));
            }
            i = je;
        } else if is_prim_char(c) {
            out.push(TypeDescriptor::Primitive(prim_of_char(c)));
            proof {
                assert(spec_parse_type_list(rest) == seq![
                    TypeDescriptorView::Primitive(spec_prim_of_char(rest[0])),
                ] + spec_parse_type_list(rest.skip(1)));
                assert(rest.skip(1) =~= descriptor@.skip(i + 1));
                assert(out.deep_view() =~= pre + seq![
                    TypeDescriptorView::Primitive(spec_prim_of_char(c)),
                ]);
                assert(out.deep_view() + spec_parse_type_list(descriptor@.skip(i + 1)) =~= pre
                    + spec_parse_type_list(rest));
            }
            i = i + 1;
        } else if c == '[' {
            if i + 1 == n || descriptor.get_char(i + 1) == ')' {
                let inner = TypeDescriptor::Object(String::new());
                proof {
                    assert(td_view(inner) == TypeDescriptorView::Object(Seq::<char>::empty()));
                }
                out.push(TypeDescriptor::Array(Box::new(inner)));
                proof {
                    if i + 1 < n {
                        assert(rest[1] == descriptor@[i + 1]);
                    }
                    assert(spec_parse_type_list(rest) == seq![
                        TypeDescriptorView::Array(
                            Box::new(TypeDescriptorView::Object(Seq::empty())),
                        ),
                    ] + spec_parse_type_list(rest.skip(1)));
                    assert(rest.skip(1) =~= descriptor@.skip(i + 1));
                    assert(out.deep_view() =~= pre + seq![
                        TypeDescriptorView::Array(
                            Box::new(TypeDescriptorView::Object(Seq::empty())),
                        ),
                    ]);
                    assert(out.deep_view() + spec_parse_type_list(descriptor@.skip(i + 1)) =~= pre
                        + spec_parse_type_list(rest));
                }
                i = i + 1;
            } else if descriptor.get_char(i + 1) == 'L' {
                let e = find_name_end(descriptor, i + 2);
                proof {
                    assert(rest[1] == descriptor@[i + 1]);
                    lemma_spec_find(descriptor@, i + 2, name_stop());
                    assert forall|k: int| 2 <= k < e - i implies !(name_stop()(rest[k])) by {
                        assert(rest[k] == descriptor@[i + k]);
                        assert(!(name_stop()(descriptor@[i + k])));
                    }
                    if e < n {
                        assert(rest[e - i] == descriptor@[e as int]);
                    }
                    lemma_spec_find_stops(rest, 2, e - i, name_stop());
                }
                let je = if e < n && descriptor.get_char(e) == ';' {
                    e + 1
                } else {
                    e
                };
                let name = String::from_str(descriptor.substring_char(i + 2, e));
                let inner = TypeDescriptor::Object(name);
                proof {
                    assert(td_view(inner) matches TypeDescriptorView::Object(nm) && nm
                        == descriptor@.subrange(i + 2, e as int));
                }
                out.push(TypeDescriptor::Array(Box::new(inner)));
                proof {
                    assert(rest.subrange(2, e - i) =~= descriptor@.subrange(i + 2, e as int));
                    assert(spec_parse_type_list(rest) == seq![
                        TypeDescriptorView::Array(
                            Box::new(TypeDescriptorView::Object(rest.subrange(2, e - i))),
                        ),
                    ] + spec_parse_type_list(rest.skip(je - i)));
                    assert(rest.skip(je - i) =~= descriptor@.skip(je as int));
                    assert(out.deep_view() =~= pre + seq![
                        TypeDescriptorView::Array(
                            Box::new(
                                TypeDescriptorView::Object(descriptor@.subrange(i + 2, e as int)),
                            ),
                        ),
                    ]);
                    assert(out.deep_view() + spec_parse_type_list(descriptor@.skip(je as int))
                        =~= pre + spec_parse_type_list(rest));
                }
                i = je;
            } else {
                let c2 = descriptor.get_char(i + 1);
                let elem = if is_prim_char(c2) || c2 == 'V' {
                    TypeDescriptor::Primitive(prim_of_char(c2))
                } else {
                    TypeDescriptor::Object(
                        String::from_str(descriptor.substring_char(i + 1, i + 2)),
                    )
                };
                proof {
                    assert(rest[1] == descriptor@[i + 1]);
                    assert(descriptor@.subrange(i + 1, i + 2) =~= seq![c2]);
                    assert(td_view(elem) == spec_elem_of_char(c2));
                }
                out.push(TypeDescriptor::Array(Box::new(elem)));
                proof {
                    assert(spec_parse_type_list(rest) == seq![
                        TypeDescriptorView::Array(Box::new(spec_elem_of_char(rest[1]))),
                    ] + spec_parse_type_list(rest.skip(2)));
                    assert(rest.skip(2) =~= descriptor@.skip(i + 2));
                    assert(out.deep_view() =~= pre + seq![
                        TypeDescriptorView::Array(Box::new(spec_elem_of_char(c2))),
                    ]);
                    assert(out.deep_view() + spec_parse_type_list(descriptor@.skip(i + 2)) =~= pre
                        + spec_parse_type_list(rest));
                }
                i = i + 2;
            }
        } else {
            proof {
                assert(spec_parse_type_list(rest) == spec_parse_type_list(rest.skip(1)));
                assert(rest.skip(1) =~= descriptor@.skip(i + 1));
            }
            i = i + 1;
        }
    }
    proof {
        assert(descriptor@.skip(n as int).len() == 0);
        assert(spec_parse_type_list(descriptor@.skip(n as int))
            =~= Seq::<TypeDescriptorView>::empty());
        assert(out.deep_view() =~= spec_parse_type_list(descriptor@.skip(start)));
        assert(out.deep_view() =~= spec_parse_descriptor_args(descriptor@));
    }
    out
}

/// Parses one complete type token, matching `spec_parse_single`.
pub fn parse_type_token(token: &str) -> (t: TypeDescriptor)
    ensures
        t@ == spec_parse_single(token@),
    decreases token@.len(),
{
    let n = token.unicode_len();
    if n == 0 {
        TypeDescriptor::Object(String::new())
    } else {
        let c0 = token.get_char(0);
        if c0 == 'L' {
            let e = find_char(token, 1, ';');
            proof {
                lemma_spec_find(token@, 1, char_pred(';'));
            }
            TypeDescriptor::Object(String::from_str(token.substring_char(1, e)))
        } else if c0 == '[' {
            let rest = token.substring_char(1, n);
            proof {
                assert(rest@ =~= token@.skip(1));
            }
            TypeDescriptor::Array(Box::new(parse_type_token(rest)))
        } else if n == 1 && (is_prim_char(c0) || c0 == 'V') {
            TypeDescriptor::Primitive(prim_of_char(c0))
        } else {
            proof {
                assert(token@.subrange(0, n as int) =~= token@);
            }
            TypeDescriptor::Object(String::from_str(token))
        }
    }
}

/// The one-character token of a primitive kind.
pub open spec fn spec_prim_char(k: PrimitiveType) -> char {
    match k {
        PrimitiveType::Int => 'I',
        PrimitiveType::Long => 'J',
        PrimitiveType::Double => 'D',
        PrimitiveType::Float => 'F',
        PrimitiveType::Boolean => 'Z',
        PrimitiveType::Byte => 'B',
        PrimitiveType::Char => 'C',
        PrimitiveType::Short => 'S',
        PrimitiveType::Void => 'V',
    }
}

/// An object path that the argument grammar can carry: free of the two
/// characters that end a path scan.
pub open spec fn spec_wf_object_path(nm: Seq<char>) -> bool {
    forall|i: int| 0 <= i < nm.len() ==> nm[i] != ';' && nm[i] != ')'
}

/// A type that the argument grammar can express and read back: a non-void
/// primitive, an object with a well-formed path, or an array of either.
pub open spec fn spec_wf_arg_type(t: TypeDescriptorView) -> bool {
    match t {
        TypeDescriptorView::Primitive(k) => k != PrimitiveType::Void,
        TypeDescriptorView::Object(nm) => spec_wf_object_path(nm),
        TypeDescriptorView::Array(e) => match *e {
            TypeDescriptorView::Primitive(_) => true,
            TypeDescriptorView::Object(nm) => spec_wf_object_path(nm),
            TypeDescriptorView::Array(_) => false,
        },
    }
}

/// The descriptor token of one type.
pub open spec fn spec_serialize_type(t: TypeDescriptorView) -> Seq<char>
    decreases t,
{
    match t {
        TypeDescriptorView::Primitive(k) => seq![spec_prim_char(k)],
        TypeDescriptorView::Object(nm) => seq!['L'] + nm + seq![';'],
        TypeDescriptorView::Array(e) => seq!['['] + spec_serialize_type(*e),
    }
}

/// The descriptor tokens of a type sequence, joined in order.
pub open spec fn spec_serialize_args(ts: Seq<TypeDescriptorView>) -> Seq<char>
    decreases ts.len(),
{
    if ts.len() == 0 {
        Seq::empty()
    } else {
        spec_serialize_type(ts[0]) + spec_serialize_args(ts.skip(1))
    }
}

/// A well-formed descriptor string: an argument section made of well-formed
/// tokens between `(` and `)`, and then anything as a return part.
pub open spec fn spec_wf_descriptor(d: Seq<char>) -> bool {
    exists|ts: Seq<TypeDescriptorView>, ret: Seq<char>|
        (forall|i: int| 0 <= i < ts.len() ==> spec_wf_arg_type(#[trigger] ts[i])) && d == seq!['(']
            + spec_serialize_args(ts) + seq![')'] + ret
}

/// Serialization is never empty and never starts the argument section's
/// closing characters.
proof fn lemma_serialize_type_head(t: TypeDescriptorView)
    ensures
        spec_serialize_type(t).len() > 0,
        spec_serialize_type(t)[0] != '(',
        spec_serialize_type(t)[0] != ')',
{
}

/// Reading one well-formed token off the front of a section consumes exactly
/// its serialization.
proof fn lemma_parse_serialize_step(t: TypeDescriptorView, rest: Seq<char>)
    requires
        spec_wf_arg_type(t),
    ensures
        spec_parse_type_list(spec_serialize_type(t) + rest) == seq![t] + spec_parse_type_list(rest),
{
    let s = spec_serialize_type(t) + rest;
    match t {
        TypeDescriptorView::Primitive(k) => {
            assert(s[0] == spec_prim_char(k));
            assert(spec_is_prim_char(s[0]));
            assert(spec_prim_of_char(spec_prim_char(k)) == k);
            assert(s.skip(1) =~= rest);
            assert(spec_parse_type_list(s) == seq![t] + spec_parse_type_list(rest));
        },
        TypeDescriptorView::Object(nm) => {
            assert(s[0] == 'L');
            let e = 1 + nm.len() as int;
            assert forall|k: int| 1 <= k < e implies !(name_stop()(s[k])) by {
                assert(s[k] == nm[k - 1]);
            }
            assert(s[e] == ';');
            lemma_spec_find_stops(s, 1, e, name_stop());
            assert(s.subrange(1, e) =~= nm);
            assert(s.skip(e + 1) =~= rest);
            assert(spec_parse_type_list(s) == seq![t] + spec_parse_type_list(rest));
        },
        TypeDescriptorView::Array(el) => {
            assert(s[0] == '[');
            lemma_serialize_type_head(*el);
            assert(s[1] == spec_serialize_type(*el)[0]);
            match *el {
                TypeDescriptorView::Primitive(k) => {
                    assert(s[1] == spec_prim_char(k));
                    assert(s[1] != ')' && s[1] != 'L');
                    assert(spec_elem_of_char(s[1]) == TypeDescriptorView::Primitive(k));
                    assert(s.skip(2) =~= rest);
                    assert(spec_parse_type_list(s) == seq![t] + spec_parse_type_list(rest));
                },
                TypeDescriptorView::Object(nm) => {
                    assert(s[1] == 'L');
                    let e = 2 + nm.len() as int;
                    assert forall|k: int| 2 <= k < e implies !(name_stop()(s[k])) by {
                        assert(s[k] == nm[k - 2]);
                    }
                    assert(s[e] == ';');
                    lemma_spec_find_stops(s, 2, e, name_stop());
                    assert(s.subrange(2, e) =~= nm);
                    assert(s.skip(e + 1) =~= rest);
                    assert(spec_parse_type_list(s) == seq![t] + spec_parse_type_list(rest));
                },
                TypeDescriptorView::Array(_) => {
                    assert(false);
                },
            }
        },
    }
}

/// Reading well-formed tokens off the front of a section consumes exactly
/// their joined serialization.
proof fn lemma_parse_serialize_args(ts: Seq<TypeDescriptorView>, rest: Seq<char>)
    requires
        forall|i: int| 0 <= i < ts.len() ==> spec_wf_arg_type(#[trigger] ts[i]),
    ensures
        spec_parse_type_list(spec_serialize_args(ts) + rest) == ts + spec_parse_type_list(rest),
    decreases ts.len(),
{
    if ts.len() == 0 {
        assert(spec_serialize_args(ts) + rest =~= rest);
        assert(ts + spec_parse_type_list(rest) =~= spec_parse_type_list(rest));
    } else {
        lemma_parse_serialize_args(ts.skip(1), rest);
        lemma_parse_serialize_step(ts[0], spec_serialize_args(ts.skip(1)) + rest);
        assert(spec_serialize_args(ts) + rest =~= spec_serialize_type(ts[0]) + (
        spec_serialize_args(ts.skip(1)) + rest));
        assert(seq![ts[0]] + (ts.skip(1) + spec_parse_type_list(rest)) =~= ts
            + spec_parse_type_list(rest));
    }
}

/// Parsing recovers exactly the type sequence that a well-formed descriptor
/// string was joined from: for every well-formed sequence `ts` and any return
/// part, the argument parser applied to `(` + the joined tokens + `)` + the
/// return part yields `ts` again, the same types in the same order (and so
/// the same count).
pub proof fn lemma_parse_args_roundtrip(ts: Seq<TypeDescriptorView>, ret: Seq<char>)
    requires
        forall|i: int| 0 <= i < ts.len() ==> spec_wf_arg_type(#[trigger] ts[i]),
    ensures
        spec_parse_descriptor_args(seq!['('] + spec_serialize_args(ts) + seq![')'] + ret) == ts,
{
    let d = seq!['('] + spec_serialize_args(ts) + seq![')'] + ret;
    assert(d[0] == '(');
    if ts.len() == 0 {
        assert(d[1] == ')');
    } else {
        lemma_serialize_type_head(ts[0]);
        assert(d[1] == spec_serialize_type(ts[0])[0]);
    }
    assert(!(not_open()(d[0])));
    assert(not_open()(d[1]));
    lemma_spec_find_stops(d, 0, 1, not_open());
    let tail = seq![')'] + ret;
    assert(d.skip(1) =~= spec_serialize_args(ts) + tail);
    lemma_parse_serialize_args(ts, tail);
    assert(spec_parse_type_list(tail) =~= Seq::<TypeDescriptorView>::empty());
    assert(ts + spec_parse_type_list(tail) =~= ts);
}

/// A well-formed descriptor string splits as `(` + the joined serialization
/// of exactly the types its argument parser returns + `)` + a return part:
/// re-joining the parsed sequence reconstructs the argument section.
pub proof fn lemma_parse_join_reconstructs(d: Seq<char>)
    requires
        spec_wf_descriptor(d),
    ensures
        exists|ret: Seq<char>|
            d == seq!['('] + spec_serialize_args(spec_parse_descriptor_args(d)) + seq![')'] + ret,
{
    let (ts, ret): (Seq<TypeDescriptorView>, Seq<char>) = choose|
        ts: Seq<TypeDescriptorView>,
        ret: Seq<char>,
    |
        (forall|i: int| 0 <= i < ts.len() ==> spec_wf_arg_type(#[trigger] ts[i])) && d == seq!['(']
            + spec_serialize_args(ts) + seq![')'] + ret;
    lemma_parse_args_roundtrip(ts, ret);
}

/// Renders one type as its descriptor token, matching `spec_serialize_type`.
pub fn serialize_type(t: &TypeDescriptor) -> (r: String)
    ensures
        r@ == spec_serialize_type(t@),
    decreases *t,
{
    match t {
        TypeDescriptor::Primitive(k) => {
            let r = String::from_str(prim_char_str(*k));
            proof {
                assert(r@ =~= spec_serialize_type(t@));
            }
            r
        },
        TypeDescriptor::Object(nm) => {
            let mut r = String::from_str("L");
            r.append(nm.as_str());
            r.append(";");
            proof {
                reveal_strlit("L");
                reveal_strlit(";");
                assert(r@ =~= spec_serialize_type(t@));
            }
            r
        },
        TypeDescriptor::Array(e) => {
            let mut r = String::from_str("[");
            let inner = serialize_type(e);
            r.append(inner.as_str());
            proof {
                reveal_strlit("[");
                assert(r@ =~= spec_serialize_type(t@));
            }
            r
        },
    }
}

/// The one-character string of a primitive token.
fn prim_char_str(k: PrimitiveType) -> (r: &'static str)
    ensures
        r@ == seq![spec_prim_char(k)],
{
    proof {
        reveal_strlit("I");
        reveal_strlit("J");
        reveal_strlit("D");
        reveal_strlit("F");
        reveal_strlit("Z");
        reveal_strlit("B");
        reveal_strlit("C");
        reveal_strlit("S");
        reveal_strlit("V");
    }
    let r = match k {
        PrimitiveType::Int => "I",
        PrimitiveType::Long => "J",
        PrimitiveType::Double => "D",
        PrimitiveType::Float => "F",
        PrimitiveType::Boolean => "Z",
        PrimitiveType::Byte => "B",
        PrimitiveType::Char => "C",
        PrimitiveType::Short => "S",
        PrimitiveType::Void => "V",
    };
    proof {
        assert(r@ =~= seq![spec_prim_char(k)]);
    }
    r
}

/// Joining distributes over concatenation of type sequences.
proof fn lemma_serialize_args_concat(a: Seq<TypeDescriptorView>, b: Seq<TypeDescriptorView>)
    ensures
        spec_serialize_args(a + b) == spec_serialize_args(a) + spec_serialize_args(b),
    decreases a.len(),
{
    if a.len() == 0 {
        assert(a + b =~= b);
        assert(spec_serialize_args(a) + spec_serialize_args(b) =~= spec_serialize_args(b));
    } else {
        lemma_serialize_args_concat(a.skip(1), b);
        assert((a + b).skip(1) =~= a.skip(1) + b);
        assert(spec_serialize_args(a + b) =~= spec_serialize_args(a) + spec_serialize_args(b));
    }
}

/// Joins the descriptor tokens of `args` in order, matching
/// `spec_serialize_args`; the re-joining half of the parse round trip.
pub fn serialize_args(args: &Vec<TypeDescriptor>) -> (r: String)
    ensures
        r@ == spec_serialize_args(args.deep_view()),
{
    let mut r = String::new();
    let mut i: usize = 0;
    proof {
        assert(args.deep_view().take(0) =~= Seq::<TypeDescriptorView>::empty());
    }
    while i < args.len()
        invariant
            i <= args.len(),
            args.deep_view().len() == args.len(),
            r@ == spec_serialize_args(args.deep_view().take(i as int)),
        decreases args.len() - i,
    {
        let piece = serialize_type(&args[i]);
        r.append(piece.as_str());
        proof {
            let dv = args.deep_view();
            assert(dv.take(i + 1) =~= dv.take(i as int) + seq![dv[i as int]]);
            lemma_serialize_args_concat(dv.take(i as int), seq![dv[i as int]]);
            assert(seq![dv[i as int]].skip(1) =~= Seq::<TypeDescriptorView>::empty());
            assert(spec_serialize_args(Seq::<TypeDescriptorView>::empty())
                =~= Seq::<char>::empty());
            assert(spec_serialize_args(seq![dv[i as int]]) =~= spec_serialize_type(dv[i as int]));
            assert(dv[i as int] == args[i as int]@);
        }
        i = i + 1;
    }
    proof {
        assert(args.deep_view().take(args.len() as int) =~= args.deep_view());
    }
    r
}

/// Parses the return type of a descriptor string, matching
/// `spec_parse_descriptor_return`: the token standing after the argument
/// section's closing `)`.
pub fn parse_descriptor_return(descriptor: &str) -> (t: TypeDescriptor)
    ensures
        t@ == spec_parse_descriptor_return(descriptor@),
{
    let n = descriptor.unicode_len();
    let p = find_char(descriptor, 0, ')');
    proof {
        lemma_spec_find(descriptor@, 0, char_pred(')'));
    }
    if p == n {
        TypeDescriptor::Object(String::new())
    } else {
        let q = find_char(descriptor, p + 1, ')');
        proof {
            lemma_spec_find(descriptor@, p + 1, char_pred(')'));
        }
        parse_type_token(descriptor.substring_char(p + 1, q))
    }
}

} // verus!

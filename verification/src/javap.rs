//! Reads member declarations out of a class's textual disassembly: a
//! two-line state machine that recognizes a declaration line, then takes the
//! `descriptor:` line that follows it as the authoritative signature.
//!
//! The line grammar written out here mirrors what the disassembler prints: an
//! optional visibility word, optional `static` / `native` modifiers, a return
//! type token, the member name, a parenthesized raw argument list (discarded
//! in favour of the descriptor line), an optional `throws` clause and a
//! closing semicolon.

use vstd::prelude::*;

use crate::descriptor::{
    parse_descriptor_args, parse_descriptor_return, spec_parse_descriptor_args,
    spec_parse_descriptor_return, TypeDescriptor, TypeDescriptorView,
};
use crate::text::{
    char_pred, lemma_spec_find_stops, replace_char, spec_find, spec_replace_char, spec_split_lines,
    split_lines,
};

verus! {

/// One discovered member: where it lives, how the disassembly names it, its
/// authoritative descriptor string, and the types parsed out of the latter.
#[derive(Debug, PartialEq)]
pub struct MethodDescriptor {
    /// Slash-delimited path of the declaring class.
    pub declaring_path: String,
    /// The name as disassembled; may carry synthetic markers.
    pub raw_name: String,
    /// The full `(args)return` descriptor string.
    pub signature: String,
    /// The argument types parsed from `signature`.
    pub arg_types: Vec<TypeDescriptor>,
    /// The return type parsed from `signature`.
    pub return_type: TypeDescriptor,
    /// Whether a `static` modifier was captured.
    pub is_static: bool,
    /// Whether the raw name is the constructor marker.
    pub is_constructor: bool,
}

/// The mathematical model of a `MethodDescriptor`.
pub struct MethodDescriptorView {
    pub declaring_path: Seq<char>,
    pub raw_name: Seq<char>,
    pub signature: Seq<char>,
    pub arg_types: Seq<TypeDescriptorView>,
    pub return_type: TypeDescriptorView,
    pub is_static: bool,
    pub is_constructor: bool,
}

impl View for MethodDescriptor {
    type V = MethodDescriptorView;

    open spec fn view(&self) -> MethodDescriptorView {
        MethodDescriptorView {
            declaring_path: self.declaring_path@,
            raw_name: self.raw_name@,
            signature: self.signature@,
            arg_types: self.arg_types.deep_view(),
            return_type: self.return_type@,
            is_static: self.is_static,
            is_constructor: self.is_constructor,
        }
    }
}

impl DeepView for MethodDescriptor {
    type V = MethodDescriptorView;

    open spec fn deep_view(&self) -> MethodDescriptorView {
        self.view()
    }
}

/// Line whitespace.
pub open spec fn spec_is_ws(c: char) -> bool {
    c == ' ' || c == '\t'
}

/// The predicate that ends a whitespace run.
pub open spec fn not_ws() -> spec_fn(char) -> bool {
    |c: char| !spec_is_ws(c)
}

/// A word character: an ASCII letter, a digit, or an underscore.
pub open spec fn spec_is_word_char(c: char) -> bool {
    (97 <= c as u32 && c as u32 <= 122) || (65 <= c as u32 && c as u32 <= 90) || (48 <= c as u32
        && c as u32 <= 57) || c == '_'
}

/// A character a return-type token may contain.
pub open spec fn spec_is_ret_char(c: char) -> bool {
    spec_is_word_char(c) || c == '<' || c == '>' || c == '.' || c == '[' || c == ']'
}

/// A character a member name may contain (the synthetic marker included).
pub open spec fn spec_is_name_char(c: char) -> bool {
    spec_is_word_char(c) || c == '$'
}

/// A character a thrown-type name may contain.
pub open spec fn spec_is_throws_char(c: char) -> bool {
    spec_is_word_char(c) || c == '.'
}

/// The predicate that ends a return-type token.
pub open spec fn not_ret_char() -> spec_fn(char) -> bool {
    |c: char| !spec_is_ret_char(c)
}

/// The predicate that ends a member name.
pub open spec fn not_name_char() -> spec_fn(char) -> bool {
    |c: char| !spec_is_name_char(c)
}

/// The predicate that ends a thrown-type name.
pub open spec fn not_throws_char() -> spec_fn(char) -> bool {
    |c: char| !spec_is_throws_char(c)
}

/// Whether `kw` stands letter for letter at position `i` of `s`.
pub open spec fn spec_match_at(s: Seq<char>, i: int, kw: Seq<char>) -> bool {
    0 <= i && i + kw.len() <= s.len() && s.subrange(i, i + kw.len()) == kw
}

/// What a declaration line yields: whether a `static` modifier was captured,
/// and the member name.  `None` where the line is no declaration.
///
/// The grammar, applied left to right with maximal munch: optional
/// whitespace; an optional visibility word; optional whitespace; an optional
/// modifier run (`static`, `native`, `static native` or `native static`,
/// whitespace-separated); optional whitespace; a non-empty return-type token;
/// at least one whitespace character; a non-empty member name; optional
/// whitespace; `(`; anything up to the next `)`; optional whitespace; an
/// optional `throws` clause (the word, whitespace, a non-empty type name);
/// optional whitespace; `;`.  Anything may follow the semicolon.
pub open spec fn spec_decl_line(line: Seq<char>) -> Option<(bool, Seq<char>)> {
    let p0 = spec_find(line, 0, not_ws());
    let p1 = if spec_match_at(line, p0, "public"@) {
        p0 + "public"@.len()
    } else if spec_match_at(line, p0, "private"@) {
        p0 + "private"@.len()
    } else if spec_match_at(line, p0, "protected"@) {
        p0 + "protected"@.len()
    } else {
        p0
    };
    let p2 = spec_find(line, p1, not_ws());
    let p3 = spec_decl_after_modifiers(line, p2);
    let st = spec_decl_is_static(line, p2);
    let p4 = spec_find(line, p3, not_ws());
    let p5 = spec_find(line, p4, not_ret_char());
    if p5 <= p4 {
        None
    } else {
        let p6 = spec_find(line, p5, not_ws());
        if p6 <= p5 {
            None
        } else {
            let p7 = spec_find(line, p6, not_name_char());
            if p7 <= p6 {
                None
            } else {
                let p8 = spec_find(line, p7, not_ws());
                if !(p8 < line.len() && line[p8] == '(') {
                    None
                } else {
                    let p9 = spec_find(line, p8 + 1, char_pred(')'));
                    if p9 >= line.len() {
                        None
                    } else {
                        let p10 = spec_find(line, p9 + 1, not_ws());
                        let p11 = spec_decl_after_throws(line, p10);
                        if p11 < 0 {
                            None
                        } else {
                            let p12 = spec_find(line, p11, not_ws());
                            if p12 < line.len() && line[p12] == ';' {
                                Some((st, line.subrange(p6, p7)))
                            } else {
                                None
                            }
                        }
                    }
                }
            }
        }
    }
}

/// The position after the optional modifier run that starts at `p2`.
pub open spec fn spec_decl_after_modifiers(line: Seq<char>, p2: int) -> int {
    if spec_match_at(line, p2, "static"@) {
        let a0 = p2 + "static"@.len();
        let a1 = spec_find(line, a0, not_ws());
        if a1 > a0 && spec_match_at(line, a1, "native"@) {
            a1 + "native"@.len()
        } else {
            a0
        }
    } else if spec_match_at(line, p2, "native"@) {
        let a0 = p2 + "native"@.len();
        let a1 = spec_find(line, a0, not_ws());
        if a1 > a0 && spec_match_at(line, a1, "static"@) {
            a1 + "static"@.len()
        } else {
            a0
        }
    } else {
        p2
    }
}

/// Whether the modifier run that starts at `p2` contains `static`.
pub open spec fn spec_decl_is_static(line: Seq<char>, p2: int) -> bool {
    if spec_match_at(line, p2, "static"@) {
        true
    } else if spec_match_at(line, p2, "native"@) {
        let a0 = p2 + "native"@.len();
        let a1 = spec_find(line, a0, not_ws());
        a1 > a0 && spec_match_at(line, a1, "static"@)
    } else {
        false
    }
}

/// The position after the optional `throws` clause that starts at `p10`, or
/// a negative value where the word stands but its clause is malformed.
pub open spec fn spec_decl_after_throws(line: Seq<char>, p10: int) -> int {
    if spec_match_at(line, p10, "throws"@) {
        let b0 = p10 + "throws"@.len();
        let b1 = spec_find(line, b0, not_ws());
        if b1 > b0 {
            let b2 = spec_find(line, b1, not_throws_char());
            if b2 > b1 {
                b2
            } else {
                -1
            }
        } else {
            -1
        }
    } else {
        p10
    }
}

/// What a `descriptor:` line yields: the descriptor string running from the
/// first non-blank character after the colon to the end of the line.  `None`
/// where the line does not carry the keyword or nothing follows it.
pub open spec fn spec_descriptor_line(line: Seq<char>) -> Option<Seq<char>> {
    let p0 = spec_find(line, 0, not_ws());
    if spec_match_at(line, p0, "descriptor:"@) {
        let p1 = spec_find(line, p0 + "descriptor:"@.len(), not_ws());
        if p1 < line.len() {
            Some(line.subrange(p1, line.len() as int))
        } else {
            None
        }
    } else {
        None
    }
}

/// Decides `spec_is_word_char`.
fn is_word_char(c: char) -> (r: bool)
    ensures
        r == spec_is_word_char(c),
{
    let u = c as u32;
    (97 <= u && u <= 122) || (65 <= u && u <= 90) || (48 <= u && u <= 57) || c == '_'
}

/// Scans past the whitespace run that starts at `i`.
fn skip_ws_from(s: &str, i: usize) -> (r: usize)
    requires
        i <= s@.len(),
    ensures
        r == spec_find(s@, i as int, not_ws()),
        i <= r <= s@.len(),
{
    let n = s.unicode_len();
    let mut j = i;
    while j < n
        invariant
            i <= j <= n,
            n == s@.len(),
            forall|k: int| i <= k < j ==> !(not_ws()(s@[k])),
        decreases n - j,
    {
        let c = s.get_char(j);
        if !(c == ' ' || c == '\t') {
            proof {
                lemma_spec_find_stops(s@, i as int, j as int, not_ws());
            }
            return j;
        }
        j = j + 1;
    }
    proof {
        lemma_spec_find_stops(s@, i as int, n as int, not_ws());
    }
    n
}

/// Scans past the return-type token that starts at `i`.
fn scan_ret_end(s: &str, i: usize) -> (r: usize)
    requires
        i <= s@.len(),
    ensures
        r == spec_find(s@, i as int, not_ret_char()),
        i <= r <= s@.len(),
{
    let n = s.unicode_len();
    let mut j = i;
    while j < n
        invariant
            i <= j <= n,
            n == s@.len(),
            forall|k: int| i <= k < j ==> !(not_ret_char()(s@[k])),
        decreases n - j,
    {
        let c = s.get_char(j);
        if !(is_word_char(c) || c == '<' || c == '>' || c == '.' || c == '[' || c == ']') {
            proof {
                lemma_spec_find_stops(s@, i as int, j as int, not_ret_char());
            }
            return j;
        }
        j = j + 1;
    }
    proof {
        lemma_spec_find_stops(s@, i as int, n as int, not_ret_char());
    }
    n
}

/// Scans past the member name that starts at `i`.
fn scan_name_end(s: &str, i: usize) -> (r: usize)
    requires
        i <= s@.len(),
    ensures
        r == spec_find(s@, i as int, not_name_char()),
        i <= r <= s@.len(),
{
    let n = s.unicode_len();
    let mut j = i;
    while j < n
        invariant
            i <= j <= n,
            n == s@.len(),
            forall|k: int| i <= k < j ==> !(not_name_char()(s@[k])),
        decreases n - j,
    {
        let c = s.get_char(j);
        if !(is_word_char(c) || c == '$') {
            proof {
                lemma_spec_find_stops(s@, i as int, j as int, not_name_char());
            }
            return j;
        }
        j = j + 1;
    }
    proof {
        lemma_spec_find_stops(s@, i as int, n as int, not_name_char());
    }
    n
}

/// Scans past the thrown-type name that starts at `i`.
fn scan_throws_end(s: &str, i: usize) -> (r: usize)
    requires
        i <= s@.len(),
    ensures
        r == spec_find(s@, i as int, not_throws_char()),
        i <= r <= s@.len(),
{
    let n = s.unicode_len();
    let mut j = i;
    while j < n
        invariant
            i <= j <= n,
            n == s@.len(),
            forall|k: int| i <= k < j ==> !(not_throws_char()(s@[k])),
        decreases n - j,
    {
        let c = s.get_char(j);
        if !(is_word_char(c) || c == '.') {
            proof {
                lemma_spec_find_stops(s@, i as int, j as int, not_throws_char());
            }
            return j;
        }
        j = j + 1;
    }
    proof {
        lemma_spec_find_stops(s@, i as int, n as int, not_throws_char());
    }
    n
}

/// Decides `spec_match_at`.
fn match_at(s: &str, i: usize, kw: &str) -> (r: bool)
    ensures
        r == spec_match_at(s@, i as int, kw@),
{
    let n = s.unicode_len();
    let m = kw.unicode_len();
    if i > n || m > n - i {
        return false;
    }
    let mut k: usize = 0;
    while k < m
        invariant
            k <= m,
            n == s@.len(),
            m == kw@.len(),
            i + m <= n,
            forall|t: int| 0 <= t < k ==> s@[i + t] == kw@[t],
        decreases m - k,
    {
        if s.get_char(i + k) != kw.get_char(k) {
            proof {
                assert(s@.subrange(i as int, i + m)[k as int] == s@[i + k]);
            }
            return false;
        }
        k = k + 1;
    }
    proof {
        assert(s@.subrange(i as int, i + m) =~= kw@);
    }
    true
}

/// Recognizes a member declaration line, matching `spec_decl_line`; yields
/// whether a `static` modifier was captured, and the member name.
#[verifier::rlimit(50)]
pub fn parse_declaration_line(line: &str) -> (r: Option<(bool, String)>)
    ensures
        r is Some <==> spec_decl_line(line@) is Some,
        r matches Some(d) ==> spec_decl_line(line@) matches Some(v) && v.0 == d.0 && v.1 == d.1@,
{
    let n = line.unicode_len();
    let p0 = skip_ws_from(line, 0);
    let p1 = if match_at(line, p0, "public") {
        p0 + "public".unicode_len()
    } else if match_at(line, p0, "private") {
        p0 + "private".unicode_len()
    } else if match_at(line, p0, "protected") {
        p0 + "protected".unicode_len()
    } else {
        p0
    };
    let p2 = skip_ws_from(line, p1);
    let (p3, st): (usize, bool) = if match_at(line, p2, "static") {
        let a0 = p2 + "static".unicode_len();
        let a1 = skip_ws_from(line, a0);
        if a1 > a0 && match_at(line, a1, "native") {
            (a1 + "native".unicode_len(), true)
        } else {
            (a0, true)
        }
    } else if match_at(line, p2, "native") {
        let a0 = p2 + "native".unicode_len();
        let a1 = skip_ws_from(line, a0);
        if a1 > a0 && match_at(line, a1, "static") {
            (a1 + "static".unicode_len(), true)
        } else {
            (a0, false)
        }
    } else {
        (p2, false)
    };
    proof {
        assert(p3 as int == spec_decl_after_modifiers(line@, p2 as int));
        assert(st == spec_decl_is_static(line@, p2 as int));
    }
    let p4 = skip_ws_from(line, p3);
    let p5 = scan_ret_end(line, p4);
    if p5 <= p4 {
        return None;
    }
    let p6 = skip_ws_from(line, p5);
    if p6 <= p5 {
        return None;
    }
    let p7 = scan_name_end(line, p6);
    if p7 <= p6 {
        return None;
    }
    let p8 = skip_ws_from(line, p7);
    if !(p8 < n && line.get_char(p8) == '(') {
        return None;
    }
    let p9 = crate::text::find_char(line, p8 + 1, ')');
    if p9 >= n {
        return None;
    }
    let p10 = skip_ws_from(line, p9 + 1);
    let p11: usize = if match_at(line, p10, "throws") {
        let b0 = p10 + "throws".unicode_len();
        let b1 = skip_ws_from(line, b0);
        if b1 > b0 {
            let b2 = scan_throws_end(line, b1);
            if b2 > b1 {
                b2
            } else {
                proof {
                    assert(spec_decl_after_throws(line@, p10 as int) < 0);
                }
                return None;
            }
        } else {
            proof {
                assert(spec_decl_after_throws(line@, p10 as int) < 0);
            }
            return None;
        }
    } else {
        p10
    };
    proof {
        assert(p11 as int == spec_decl_after_throws(line@, p10 as int));
    }
    let p12 = skip_ws_from(line, p11);
    if p12 < n && line.get_char(p12) == ';' {
        let name = String::from_str(line.substring_char(p6, p7));
        Some((st, name))
    } else {
        None
    }
}

/// The record built when a declaration meets its descriptor line: the
/// descriptor string is authoritative for the argument and return types, and
/// the constructor marker decides `is_constructor`.
pub open spec fn spec_member(
    path: Seq<char>,
    is_static: bool,
    name: Seq<char>,
    sig: Seq<char>,
) -> MethodDescriptorView {
    MethodDescriptorView {
        declaring_path: path,
        raw_name: name,
        signature: sig,
        arg_types: spec_parse_descriptor_args(sig),
        return_type: spec_parse_descriptor_return(sig),
        is_static: is_static,
        is_constructor: name == "<init>"@,
    }
}

/// Scanning for a declaration: lines are walked in order; a declaration line
/// makes its capture pending, anything else is skipped.
pub open spec fn spec_scan(lines: Seq<Seq<char>>, i: int, path: Seq<char>) -> Seq<
    MethodDescriptorView,
>
    decreases lines.len() - i when 0 <= i
{
    if i >= lines.len() {
        Seq::empty()
    } else {
        match spec_decl_line(lines[i]) {
            Some(d) => spec_scan_pending(lines, i + 1, path, d.0, d.1),
            None => spec_scan(lines, i + 1, path),
        }
    }
}

/// Scanning with a pending declaration: the next descriptor line completes
/// it into a member record; a new declaration line before that drops the
/// pending one and takes its place (a declaration with no descriptor line is
/// never emitted); anything else is skipped.
pub open spec fn spec_scan_pending(
    lines: Seq<Seq<char>>,
    j: int,
    path: Seq<char>,
    is_static: bool,
    name: Seq<char>,
) -> Seq<MethodDescriptorView>
    decreases lines.len() - j when 0 <= j
{
    if j >= lines.len() {
        Seq::empty()
    } else {
        match spec_descriptor_line(lines[j]) {
            Some(sig) => seq![spec_member(path, is_static, name, sig)] + spec_scan(
                lines,
                j + 1,
                path,
            ),
            None => match spec_decl_line(lines[j]) {
                Some(d) => spec_scan_pending(lines, j + 1, path, d.0, d.1),
                None => spec_scan_pending(lines, j + 1, path, is_static, name),
            },
        }
    }
}

/// The members read from a class's disassembly text: its lines scanned by
/// the two-line state machine, each member's declaring path being the class
/// name with dots turned into slashes.
pub open spec fn spec_parse_javap(class_name: Seq<char>, output: Seq<char>) -> Seq<
    MethodDescriptorView,
> {
    spec_scan(spec_split_lines(output), 0, spec_replace_char(class_name, '.', "/"@))
}

/// Parses the disassembly text of the class `class_name` into its ordered
/// member records, matching `spec_parse_javap`: each declaration line whose
/// very next descriptor line arrives before another declaration yields one
/// record, in disassembly order.
pub fn parse_javap_text(class_name: &str, output: &str) -> (r: Vec<MethodDescriptor>)
    ensures
        r.deep_view() == spec_parse_javap(class_name@, output@),
{
    let path = replace_char(class_name, '.', "/");
    let lines = split_lines(output);
    let ghost lv = lines.deep_view();
    let mut out: Vec<MethodDescriptor> = Vec::new();
    let mut pending: Option<(bool, String)> = None;
    let mut i: usize = 0;
    proof {
        assert(out.deep_view() =~= Seq::<MethodDescriptorView>::empty());
        assert(out.deep_view() + spec_scan(lv, 0, path@) =~= spec_scan(lv, 0, path@));
    }
    while i < lines.len()
        invariant
            i <= lines.len(),
            lv == lines.deep_view(),
            lv.len() == lines.len(),
            path@ == spec_replace_char(class_name@, '.', "/"@),
            pending is None ==> out.deep_view() + spec_scan(lv, i as int, path@) == spec_scan(
                lv,
                0,
                path@,
            ),
            pending matches Some(p) ==> out.deep_view() + spec_scan_pending(
                lv,
                i as int,
                path@,
                p.0,
                p.1@,
            ) == spec_scan(lv, 0, path@),
        decreases lines.len() - i,
    {
        let line = &lines[i];
        proof {
            assert(lv[i as int] == line@);
        }
        let ghost pre = out.deep_view();
        match pending {
            Some(p) => {
                let sig_opt = parse_descriptor_line(line.as_str());
                match sig_opt {
                    Some(sig) => {
                        let arg_types = parse_descriptor_args(sig.as_str());
                        let return_type = parse_descriptor_return(sig.as_str());
                        let is_constructor = is_constructor_marker(p.1.as_str());
                        let member = MethodDescriptor {
                            declaring_path: path.clone(),
                            raw_name: p.1,
                            signature: sig,
                            arg_types: arg_types,
                            return_type: return_type,
                            is_static: p.0,
                            is_constructor: is_constructor,
                        };
                        proof {
                            assert(member@ == spec_member(
                                path@,
                                member@.is_static,
                                member@.raw_name,
                                member@.signature,
                            ));
                        }
                        out.push(member);
                        pending = None;
                        proof {
                            assert(out.deep_view() =~= pre + seq![
                                spec_scan_pending(lv, i as int, path@, p.0, p.1@)[0],
                            ]);
                            assert(out.deep_view() + spec_scan(lv, i + 1, path@) =~= pre
                                + spec_scan_pending(lv, i as int, path@, p.0, p.1@));
                        }
                    },
                    None => {
                        let decl_opt = parse_declaration_line(line.as_str());
                        match decl_opt {
                            Some(d) => {
                                pending = Some(d);
                            },
                            None => {
                                pending = Some(p);
                            },
                        }
                    },
                }
            },
            None => {
                let decl_opt = parse_declaration_line(line.as_str());
                match decl_opt {
                    Some(d) => {
                        pending = Some(d);
                    },
                    None => {
                    },
                }
            },
        }
        i = i + 1;
    }
    proof {
        if pending is None {
            assert(spec_scan(lv, lv.len() as int, path@) =~= Seq::<MethodDescriptorView>::empty());
        } else {
            assert(spec_scan_pending(
                lv,
                lv.len() as int,
                path@,
                pending->Some_0.0,
                pending->Some_0.1@,
            ) =~= Seq::<MethodDescriptorView>::empty());
        }
        assert(out.deep_view() =~= spec_scan(lv, 0, path@));
    }
    out
}

/// Whether `name` is the constructor marker.
fn is_constructor_marker(name: &str) -> (r: bool)
    ensures
        r == (name@ == "<init>"@),
{
    let marker = String::from_str("<init>");
    let owned = String::from_str(name);
    owned == marker
}

/// Recognizes a `descriptor:` line, matching `spec_descriptor_line`; yields
/// the descriptor string it carries.
pub fn parse_descriptor_line(line: &str) -> (r: Option<String>)
    ensures
        r is Some <==> spec_descriptor_line(line@) is Some,
        r matches Some(sig) ==> spec_descriptor_line(line@) matches Some(v) && v == sig@,
{
    let n = line.unicode_len();
    let p0 = skip_ws_from(line, 0);
    if match_at(line, p0, "descriptor:") {
        let p1 = skip_ws_from(line, p0 + "descriptor:".unicode_len());
        if p1 < n {
            Some(String::from_str(line.substring_char(p1, n)))
        } else {
            None
        }
    } else {
        None
    }
}

} // verus!

//! Joins the three Sorbet outputs into a [`Project`].
use vstd::prelude::*;

use std::collections::HashMap;

use crate::autogen::{AutogenFile, FileModel, RefModel, file_models};
use crate::cfg_text::{
    AliasKind, AliasModel, BlockModel, CfgBasicBlock, CfgInstruction, CfgMethod, CfgTerminator,
    InstrModel, MethodModel, TermModel, method_models,
};
use crate::model::{
    ArgModel, Argument, BasicBlock, BlockView, BranchCondition, CallModel, ClassInfo, ClassModel,
    ClassTable, CondModel, FqnModel, InfoModel, IvarAccess, IvarModel, MethodCall, MethodFqn,
    MethodInfo, MethodKind, Project, ProjectModel, TermView, Terminator, arg_models, block_views, call_models, class_index,
    cond_models, ivar_models, lemma_class_index, lookup, table_insert, texts,
};
use crate::sorbet_type::{SorbetType, TypeModel, spec_parse_type, parse_sorbet_type, type_eq, copy_type};
use crate::symbol_table::{RawSymbol, SymbolTree, id_map_into, root_name, string_map, symbol_fqn};
use crate::text::{
    append, append_str, chars_eq, contains_chars, contains_str, ends_with, eq_str, find_char, has_prefix,
    has_suffix, join, join_chars, lemma_find_occurs, lemma_rfind_occurs, opt_int, parse_usize,
    rfind_char, rfind_str, skip, spec_contains, spec_find, spec_parse_usize, spec_rfind,
    spec_strip_prefix, spec_strip_suffix, starts_with_str, str_views, strip_prefix_str,
    strip_suffix_or_keep, strip_suffix_or_keep_str, strip_suffix_str, string_from_chars, take,
    to_chars, views, trim, trim_chars, first_where, lemma_first_where, lemma_first_where_is,
};

verus! {

broadcast use {
    vstd::seq_lib::group_seq_properties,
    vstd::string::group_string_axioms,
    vstd::std_specs::hash::group_hash_axioms,
};

// ---------------------------------------------------------------------------
// Method names
// ---------------------------------------------------------------------------

/// The method named by a cfg-text header such as `::Campaign#active?` or
/// `::DynamoDB::<Class:Code>#decode`: the part before the first `#` names
/// the class, the rest the method. A class part ending in `<Class:C>` makes
/// it a class method of `C` (under the namespace written before it). Names
/// without the leading `::`, without a `#`, or that mention `<root>` or
/// `<static-init>` name no method.
pub open spec fn spec_parse_method_fqn(raw: Seq<char>) -> Option<FqnModel> {
    match spec_strip_prefix(raw, "::"@) {
        None => None,
        Some(name) => if spec_contains(name, "<root>"@) || spec_contains(name, "<static-init>"@) {
            None
        } else {
            match spec_find(name, seq!['#']) {
                None => None,
                Some(h) => {
                    let class_part = name.take(h);
                    let method_name = name.skip(h + 1);
                    let instance = Some(
                        FqnModel { class_fqn: class_part, method_name, kind: MethodKind::Instance },
                    );
                    match spec_strip_suffix(class_part, seq!['>']) {
                        Some(inner) => match spec_rfind(inner, "<Class:"@) {
                            Some(k) => {
                                let actual = inner.skip(k + 7);
                                let prefix = inner.take(k);
                                let class_fqn = if prefix.len() == 0 {
                                    actual
                                } else {
                                    strip_suffix_or_keep(prefix, "::"@) + "::"@ + actual
                                };
                                Some(FqnModel { class_fqn, method_name, kind: MethodKind::Class })
                            },
                            None => instance,
                        },
                        None => instance,
                    }
                },
            }
        },
    }
}

/// The method named by a cfg-text method header, as
/// [`spec_parse_method_fqn`] says.
pub fn parse_method_fqn(raw_name: &str) -> (r: Option<MethodFqn>)
    ensures
        match r {
            Some(f) => spec_parse_method_fqn(raw_name@) == Some(f@),
            None => spec_parse_method_fqn(raw_name@) is None,
        },
{
    proof {
        reveal_strlit("::");
        reveal_strlit("<Class:");
    }
    let raw = to_chars(raw_name);
    let name = match strip_prefix_str(&raw, "::") {
        Some(n) => n,
        None => return None,
    };
    if contains_str(&name, "<root>") || contains_str(&name, "<static-init>") {
        return None;
    }
    let h = match find_char(&name, '#') {
        Some(h) => h,
        None => return None,
    };
    proof {
        lemma_find_occurs(name@, seq!['#']);
    }
    let n = name.len();
    assert(h < n);
    let class_part = take(&name, h);
    let method_name = string_from_chars(&skip(&name, h + 1));
    match strip_suffix_str(&class_part, ">") {
        Some(inner) => {
            proof {
                reveal_strlit(">");
                assert(">"@ == seq!['>']);
            }
            match rfind_str(&inner, "<Class:") {
                Some(k) => {
                    proof {
                        lemma_rfind_occurs(inner@, "<Class:"@);
                    }
                    let actual = skip(&inner, k + 7);
                    let prefix = take(&inner, k);
                    let mut class_fqn: Vec<char> = Vec::new();
                    if prefix.len() > 0 {
                        let p = strip_suffix_or_keep_str(&prefix, "::");
                        append(&mut class_fqn, &p);
                        append_str(&mut class_fqn, "::");
                    }
                    append(&mut class_fqn, &actual);
                    return Some(
                        MethodFqn {
                            class_fqn: string_from_chars(&class_fqn),
                            method_name,
                            kind: MethodKind::Class,
                        },
                    );
                },
                None => {},
            }
        },
        None => {
            proof {
                reveal_strlit(">");
                assert(">"@ == seq!['>']);
            }
        },
    }
    Some(
        MethodFqn {
            class_fqn: string_from_chars(&class_part),
            method_name,
            kind: MethodKind::Instance,
        },
    )
}

/// Sorbet's internal methods: those called on `<Magic>`, and those whose
/// name starts with `<` and has a `-` (such as `<build-hash>`).
pub open spec fn spec_is_magic_method(method_name: Seq<char>, receiver_type: Seq<char>) -> bool {
    spec_contains(receiver_type, "<Magic>"@) || (has_prefix(method_name, seq!['<'])
        && spec_contains(method_name, seq!['-']))
}

/// Whether a call is one of Sorbet's internal methods, as
/// [`spec_is_magic_method`] says.
pub fn is_magic_method(method_name: &Vec<char>, receiver_type: &Vec<char>) -> (r: bool)
    ensures
        r == spec_is_magic_method(method_name@, receiver_type@),
{
    proof {
        reveal_strlit("<");
        reveal_strlit("-");
        assert("<"@ == seq!['<']);
        assert("-"@ == seq!['-']);
    }
    contains_str(receiver_type, "<Magic>") || (starts_with_str(method_name, "<") && contains_str(
        method_name,
        "-",
    ))
}

// ---------------------------------------------------------------------------
// Class files
// ---------------------------------------------------------------------------

/// A path into generated RBI files.
pub open spec fn spec_is_rbi_path(path: Seq<char>) -> bool {
    spec_contains(path, "sorbet/rbi/"@) || has_suffix(path, ".rbi"@)
}

/// Whether `path` is an RBI file, as [`spec_is_rbi_path`] says.
pub fn is_rbi_path(path: &Vec<char>) -> (r: bool)
    ensures
        r == spec_is_rbi_path(path@),
{
    contains_str(path, "sorbet/rbi/") || ends_with(path, &to_chars(".rbi"))
}

/// `s` with every `::` replaced by `/`, left to right.
pub open spec fn colons_to_slashes(s: Seq<char>) -> Seq<char>
    decreases s.len(),
{
    if s.len() == 0 {
        s
    } else if s.len() >= 2 && s[0] == ':' && s[1] == ':' {
        seq!['/'] + colons_to_slashes(s.skip(2))
    } else {
        seq![s[0]] + colons_to_slashes(s.skip(1))
    }
}

/// `s` with every `::` replaced by `/`.
fn replace_colons(s: &Vec<char>) -> (r: Vec<char>)
    ensures
        r@ == colons_to_slashes(s@),
{
    let mut out: Vec<char> = Vec::new();
    let mut i: usize = 0;
    while i < s.len()
        invariant
            i <= s.len(),
            out@ + colons_to_slashes(s@.skip(i as int)) == colons_to_slashes(s@),
        decreases s.len() - i,
    {
        let ghost rest = s@.skip(i as int);
        if i + 1 < s.len() && s[i] == ':' && s[i + 1] == ':' {
            assert(rest.skip(2) == s@.skip(i + 2));
            out.push('/');
            i += 2;
        } else {
            assert(rest.skip(1) == s@.skip(i + 1));
            out.push(s[i]);
            i += 1;
        }
    }
    out
}

/// The lower-case form of a text, as `str::to_lowercase` gives it.
pub uninterp spec fn lowercase(s: Seq<char>) -> Seq<char>;

/// `str::to_lowercase`: the text with each character replaced by its Unicode
/// lower-case mapping. The result is named, not stated.
#[verifier::external_body]
fn to_lowercase(s: &str) -> (r: String)
    ensures
        r@ == lowercase(s@),
{
    s.to_lowercase()
}

/// How well a lower-cased path fits a class whose lower-cased expected
/// stem is `expected`: 2 when the path is `expected.rb` or ends with
/// `/expected.rb`, else 1.
pub open spec fn spec_score_lowered(expected: Seq<char>, path_lower: Seq<char>) -> u32 {
    if has_suffix(path_lower, seq!['/'] + expected + ".rb"@) || path_lower == expected + ".rb"@ {
        2
    } else {
        1
    }
}

/// How well a path fits a class: 0 for an RBI file; for any other file 2
/// when it is where the class's name puts it (`A::B` in `a/b.rb`, compared
/// in lower case), else 1.
pub open spec fn spec_path_match_score(fqn: Seq<char>, path: Seq<char>) -> u32 {
    if spec_is_rbi_path(path) {
        0
    } else {
        spec_score_lowered(lowercase(colons_to_slashes(fqn)), lowercase(path))
    }
}

/// How well a lower-cased path fits a lower-cased expected stem, as
/// [`spec_score_lowered`] says.
pub fn score_lowered(expected: &Vec<char>, path_lower: &Vec<char>) -> (r: u32)
    ensures
        r == spec_score_lowered(expected@, path_lower@),
{
    let mut nested: Vec<char> = Vec::new();
    nested.push('/');
    append(&mut nested, expected);
    append_str(&mut nested, ".rb");
    let mut whole: Vec<char> = Vec::new();
    append(&mut whole, expected);
    append_str(&mut whole, ".rb");
    assert(nested@ == seq!['/'] + expected@ + ".rb"@);
    if ends_with(path_lower, &nested) || chars_eq(path_lower, &whole) {
        2
    } else {
        1
    }
}

/// How well `path` fits the class named `fqn`, as
/// [`spec_path_match_score`] says.
pub fn path_match_score(fqn: &Vec<char>, path: &Vec<char>) -> (r: u32)
    ensures
        r == spec_path_match_score(fqn@, path@),
{
    if is_rbi_path(path) {
        return 0;
    }
    let stem = string_from_chars(&replace_colons(fqn));
    let expected = to_chars(to_lowercase(stem.as_str()).as_str());
    let path_s = string_from_chars(path);
    let path_lower = to_chars(to_lowercase(path_s.as_str()).as_str());
    score_lowered(&expected, &path_lower)
}


// ---------------------------------------------------------------------------
// Classes from the symbol table
// ---------------------------------------------------------------------------

/// The names the map knows for `ids`, in order; unknown ids are skipped.
pub open spec fn known_names(ids: Seq<u64>, m: Map<u64, Seq<char>>) -> Seq<Seq<char>>
    decreases ids.len(),
{
    if ids.len() == 0 {
        seq![]
    } else {
        let rest = known_names(ids.drop_last(), m);
        if m.contains_key(ids.last()) {
            rest.push(m[ids.last()])
        } else {
            rest
        }
    }
}

/// The class a symbol describes, named `fqn`: a module when the symbol says
/// so, with the superclass and mixins whose ids the map knows, and with no
/// methods or file yet.
pub open spec fn symbol_class(sym: RawSymbol, fqn: Seq<char>, m: Map<u64, Seq<char>>) -> ClassModel {
    ClassModel {
        fqn,
        is_module: match sym.is_module {
            Some(b) => b,
            None => false,
        },
        super_class: match sym.super_class {
            Some(id) => if m.contains_key(id) {
                Some(m[id])
            } else {
                None
            },
            None => None,
        },
        mixins: match sym.mixins {
            Some(v) => known_names(v@, m),
            None => seq![],
        },
        method_fqns: seq![],
        file_path: None,
        line: None,
    }
}

/// The kind of symbol that is a class or module.
pub open spec fn class_kind() -> Seq<char> {
    "CLASS_OR_MODULE"@
}

/// `cs` with the classes and modules of `sym` and its descendants stored,
/// in pre-order; a class is named by its parent's name, `::`, and its own
/// name, and the root adds no name.
pub open spec fn classes_into(
    sym: RawSymbol,
    parent: Seq<char>,
    m: Map<u64, Seq<char>>,
    cs: Seq<ClassModel>,
) -> Seq<ClassModel>
    decreases sym, 0int,
{
    let name = sym.name.name@;
    if sym.kind@ == class_kind() && name != root_name() {
        let fqn = symbol_fqn(name, parent);
        let cs1 = table_insert(cs, symbol_class(sym, fqn, m));
        match sym.children {
            Some(ch) => children_classes(ch@, 0, fqn, m, cs1),
            None => cs1,
        }
    } else {
        let cur = if name == root_name() {
            Seq::empty()
        } else {
            parent
        };
        match sym.children {
            Some(ch) => children_classes(ch@, 0, cur, m, cs),
            None => cs,
        }
    }
}

/// `cs` with the classes of `ch[i..]` and their descendants stored.
pub open spec fn children_classes(
    ch: Seq<RawSymbol>,
    i: int,
    parent: Seq<char>,
    m: Map<u64, Seq<char>>,
    cs: Seq<ClassModel>,
) -> Seq<ClassModel>
    decreases ch, ch.len() - i,
{
    if i >= ch.len() || i < 0 {
        cs
    } else {
        children_classes(ch, i + 1, parent, m, classes_into(ch[i], parent, m, cs))
    }
}

/// The names the map knows for `ids`.
fn known_names_exec(ids: &Vec<u64>, id_map: &HashMap<u64, String>) -> (r: Vec<String>)
    ensures
        texts(r@) == known_names(ids@, string_map(id_map@)),
{
    let ghost m = string_map(id_map@);
    let mut r: Vec<String> = Vec::new();
    let mut i: usize = 0;
    while i < ids.len()
        invariant
            i <= ids.len(),
            m == string_map(id_map@),
            texts(r@) == known_names(ids@.take(i as int), m),
        decreases ids.len() - i,
    {
        assert(ids@.take(i + 1).drop_last() == ids@.take(i as int));
        match id_map.get(&ids[i]) {
            Some(n) => {
                r.push(n.clone());
            },
            None => {},
        }
        assert(texts(r@) == known_names(ids@.take(i + 1), m));
        i += 1;
    }
    assert(ids@.take(ids.len() as int) == ids@);
    r
}

/// Stores the classes and modules of `symbol` and its descendants, as
/// [`classes_into`] says.
fn build_classes_from_symbols(
    symbol: &RawSymbol,
    parent_fqn: &Vec<char>,
    id_map: &HashMap<u64, String>,
    classes: &mut ClassTable,
)
    ensures
        final(classes)@ == classes_into(*symbol, parent_fqn@, string_map(id_map@), old(classes)@),
    decreases symbol, 0int,
{
    proof {
        reveal_strlit("CLASS_OR_MODULE");
    }
    let name = to_chars(symbol.name.name.as_str());
    let is_root = eq_str(&name, "<root>");
    if str_eq_kind(&symbol.kind) && !is_root {
        let mut fqn: Vec<char> = Vec::new();
        if parent_fqn.len() > 0 {
            append(&mut fqn, parent_fqn);
            append_str(&mut fqn, "::");
        }
        append(&mut fqn, &name);
        assert(fqn@ == symbol_fqn(name@, parent_fqn@));
        let super_class = match symbol.super_class {
            Some(id) => match id_map.get(&id) {
                Some(n) => Some(n.clone()),
                None => None,
            },
            None => None,
        };
        let mixins = match &symbol.mixins {
            Some(ids) => known_names_exec(ids, id_map),
            None => Vec::new(),
        };
        let info = ClassInfo {
            fqn: string_from_chars(&fqn),
            is_module: match symbol.is_module {
                Some(b) => b,
                None => false,
            },
            super_class,
            mixins,
            method_fqns: Vec::new(),
            file_path: None,
            line: None,
        };
        assert(info@.mixins == symbol_class(*symbol, fqn@, string_map(id_map@)).mixins);
        assert(info@.method_fqns =~= Seq::<FqnModel>::empty());
        assert(info@ == symbol_class(*symbol, fqn@, string_map(id_map@)));
        classes.insert(info);
        match &symbol.children {
            Some(ch) => children_classes_exec(ch, &fqn, id_map, classes),
            None => {},
        }
    } else {
        let cur: Vec<char> = if is_root {
            Vec::new()
        } else {
            take(parent_fqn, parent_fqn.len())
        };
        assert(cur@ == (if name@ == root_name() {
            Seq::empty()
        } else {
            parent_fqn@
        }));
        match &symbol.children {
            Some(ch) => children_classes_exec(ch, &cur, id_map, classes),
            None => {},
        }
    }
}

/// Whether a symbol kind is `CLASS_OR_MODULE`.
fn str_eq_kind(kind: &String) -> (r: bool)
    ensures
        r == (kind@ == class_kind()),
{
    crate::text::str_eq(kind.as_str(), "CLASS_OR_MODULE")
}

/// Stores the classes of every child, in order.
fn children_classes_exec(
    ch: &Vec<RawSymbol>,
    parent: &Vec<char>,
    id_map: &HashMap<u64, String>,
    classes: &mut ClassTable,
)
    ensures
        final(classes)@ == children_classes(ch@, 0, parent@, string_map(id_map@), old(classes)@),
    decreases ch@, ch@.len() + 1,
{
    let mut i: usize = 0;
    while i < ch.len()
        invariant
            i <= ch.len(),
            children_classes(ch@, 0, parent@, string_map(id_map@), old(classes)@)
                == children_classes(ch@, i as int, parent@, string_map(id_map@), classes@),
        decreases ch.len() - i,
    {
        build_classes_from_symbols(&ch[i], parent, id_map, classes);
        i += 1;
    }
}

// ---------------------------------------------------------------------------
// Class files from autogen
// ---------------------------------------------------------------------------

/// The line number after the last `:` of a reference's location.
pub open spec fn ref_line(loc: Seq<char>) -> Option<usize> {
    match spec_rfind(loc, seq![':']) {
        Some(k) => spec_parse_usize(loc.skip(k + 1)),
        None => None,
    }
}

/// `cs` after one reference of the file at `path`: a defining reference to
/// a class in the table moves the class to `path` when `path` fits the
/// class better than its current file (see [`spec_path_match_score`]; a
/// class without a file scores 0), and then takes the reference's line
/// when it has one.
pub open spec fn apply_ref(cs: Seq<ClassModel>, path: Seq<char>, r: RefModel) -> Seq<ClassModel> {
    if !r.is_defining_ref {
        cs
    } else {
        let fqn = join(r.resolved, "::"@);
        match class_index(cs, fqn) {
            None => cs,
            Some(i) => {
                let c = cs[i];
                let existing = match c.file_path {
                    Some(p) => spec_path_match_score(fqn, p),
                    None => 0,
                };
                if spec_path_match_score(fqn, path) > existing {
                    cs.update(
                        i,
                        ClassModel {
                            file_path: Some(path),
                            line: match ref_line(r.loc) {
                                Some(l) => Some(l),
                                None => c.line,
                            },
                            ..c
                        },
                    )
                } else {
                    cs
                }
            },
        }
    }
}

/// `cs` after the references of one file, in order.
pub open spec fn apply_refs(cs: Seq<ClassModel>, path: Seq<char>, refs: Seq<RefModel>) -> Seq<
    ClassModel,
>
    decreases refs.len(),
{
    if refs.len() == 0 {
        cs
    } else {
        apply_ref(apply_refs(cs, path, refs.drop_last()), path, refs.last())
    }
}

/// `cs` after the references of every file, in order.
pub open spec fn apply_files(cs: Seq<ClassModel>, files: Seq<FileModel>) -> Seq<ClassModel>
    decreases files.len(),
{
    if files.len() == 0 {
        cs
    } else {
        let f = files.last();
        apply_refs(apply_files(cs, files.drop_last()), f.path, f.refs)
    }
}

/// The characters of each string.
fn chars_of_all(v: &Vec<String>) -> (r: Vec<Vec<char>>)
    ensures
        views(r@) == str_views(v@),
{
    let mut r: Vec<Vec<char>> = Vec::new();
    let mut i: usize = 0;
    while i < v.len()
        invariant
            i <= v.len(),
            r.len() == i,
            forall|j: int| 0 <= j < i ==> (#[trigger] r@[j])@ == v@[j]@,
        decreases v.len() - i,
    {
        r.push(to_chars(v[i].as_str()));
        i += 1;
    }
    assert(views(r@) =~= str_views(v@));
    r
}

/// The line number after the last `:` of a location, as [`ref_line`] says.
fn loc_line(loc: &String) -> (r: Option<usize>)
    ensures
        r == ref_line(loc@),
{
    let l = to_chars(loc.as_str());
    match rfind_char(&l, ':') {
        Some(k) => {
            proof {
                lemma_rfind_occurs(l@, seq![':']);
            }
            let n = l.len();
            assert(k < n);
            parse_usize(&skip(&l, k + 1))
        },
        None => None,
    }
}

/// Applies the defining references of the autogen files to the classes, as
/// [`apply_files`] says.
fn apply_autogen(autogen_files: &Vec<AutogenFile>, classes: &mut ClassTable)
    ensures
        final(classes)@ == apply_files(old(classes)@, file_models(autogen_files@)),
{
    let ghost fm = file_models(autogen_files@);
    let mut fi: usize = 0;
    while fi < autogen_files.len()
        invariant
            fi <= autogen_files.len(),
            fm == file_models(autogen_files@),
            classes@ == apply_files(old(classes)@, fm.take(fi as int)),
        decreases autogen_files.len() - fi,
    {
        assert(fm.take(fi + 1).drop_last() == fm.take(fi as int));
        let file = &autogen_files[fi];
        let path = to_chars(file.path.as_str());
        let ghost start = classes@;
        let mut ri: usize = 0;
        while ri < file.refs.len()
            invariant
                ri <= file.refs.len(),
                path@ == file@.path,
                classes@ == apply_refs(start, file@.path, file@.refs.take(ri as int)),
            decreases file.refs.len() - ri,
        {
            assert(file@.refs.take(ri + 1).drop_last() == file@.refs.take(ri as int));
            let r = &file.refs[ri];
            assert(r@ == file@.refs[ri as int]);
            if r.is_defining_ref {
                let resolved = chars_of_all(&r.resolved);
                let fqn = join_chars(&resolved, "::");
                let fqn_s = string_from_chars(&fqn);
                proof {
                    lemma_class_index(classes@, fqn@);
                }
                match classes.index_of(fqn_s.as_str()) {
                    Some(i) => {
                        let existing = match &classes.values()[i].file_path {
                            Some(p) => path_match_score(&fqn, &to_chars(p.as_str())),
                            None => 0,
                        };
                        let new_score = path_match_score(&fqn, &path);
                        if new_score > existing {
                            let line = loc_line(&r.loc);
                            classes.set_location(i, file.path.clone(), line);
                        }
                    },
                    None => {},
                }
            }
            assert(classes@ =~= apply_refs(start, file@.path, file@.refs.take(ri + 1)));
            ri += 1;
        }
        assert(file@.refs.take(file.refs.len() as int) == file@.refs);
        assert(fm[fi as int] == file@);
        fi += 1;
    }
    assert(fm.take(autogen_files.len() as int) == fm);
}


// ---------------------------------------------------------------------------
// Branch conditions
// ---------------------------------------------------------------------------

/// What an instruction says of a condition variable: the condition's text,
/// or another variable to follow.
pub enum Resolution {
    Text(Seq<char>),
    Follow(Seq<char>),
}

/// The source variable of an assignment's right-hand side `$7: T::Boolean`:
/// the text before the first `:`, trimmed.
pub open spec fn rhs_source(rhs: Seq<char>) -> Seq<char> {
    trim(
        match spec_find(rhs, seq![':']) {
            Some(k) => rhs.take(k),
            None => rhs,
        },
    )
}

/// What instruction `ins` says of variable `v`: a call assigning `v` (not
/// one of Sorbet's internal methods) gives `recv.meth()`, named by the
/// receiver variable (`<self>.starts_at()`), an
/// `arg_present` assigning `v` gives `arg_present(name)`, and a cast or a
/// non-empty assignment to `v` is followed to its source.
pub open spec fn instr_resolution(ins: InstrModel, v: Seq<char>) -> Option<Resolution> {
    match ins {
        InstrModel::MethodCall { lhs, receiver, method_name, .. } => if lhs.name == v
            && !spec_is_magic_method(method_name, receiver.ty) {
            Some(
                Resolution::Text(receiver.name + seq!['.'] + method_name + "()"@),
            )
        } else {
            None
        },
        InstrModel::ArgPresent { lhs, arg_name } => if lhs.name == v {
            Some(Resolution::Text("arg_present("@ + arg_name + seq![')']))
        } else {
            None
        },
        InstrModel::Cast { lhs, source, .. } => if lhs.name == v {
            Some(Resolution::Follow(source.name))
        } else {
            None
        },
        InstrModel::Assignment { lhs, rhs } => if lhs.name == v && rhs_source(rhs).len() > 0 {
            Some(Resolution::Follow(rhs_source(rhs)))
        } else {
            None
        },
        _ => None,
    }
}

/// What the last instruction of `instrs` that says anything of `v` says.
pub open spec fn block_resolution(instrs: Seq<InstrModel>, v: Seq<char>) -> Option<Resolution>
    decreases instrs.len(),
{
    if instrs.len() == 0 {
        None
    } else {
        match instr_resolution(instrs.last(), v) {
            Some(r) => Some(r),
            None => block_resolution(instrs.drop_last(), v),
        }
    }
}

/// The first block from `i` on, other than those numbered `start`, that
/// says anything of `v`: what it says, and its number.
pub open spec fn scan_others(blocks: Seq<BlockModel>, start: usize, v: Seq<char>, i: int) -> Option<
    (Resolution, usize),
>
    decreases blocks.len() - i,
{
    if i < 0 || i >= blocks.len() {
        None
    } else if blocks[i].id == start {
        scan_others(blocks, start, v, i + 1)
    } else {
        match block_resolution(blocks[i].instructions, v) {
            Some(r) => Some((r, blocks[i].id)),
            None => scan_others(blocks, start, v, i + 1),
        }
    }
}

/// Position of the first block numbered `id`.
pub open spec fn block_index(blocks: Seq<BlockModel>, id: usize) -> Option<int> {
    first_where(blocks.len() as int, |i: int| blocks[i].id == id, 0)
}

/// What the blocks say of `v`, searching the (first) block numbered `start`
/// first and then the others in order: what is said, and the number of the
/// block that says it.
pub open spec fn step_resolution(blocks: Seq<BlockModel>, v: Seq<char>, start: usize) -> Option<
    (Resolution, usize),
> {
    let first = match block_index(blocks, start) {
        Some(k) => match block_resolution(blocks[k].instructions, v) {
            Some(r) => Some((r, start)),
            None => None,
        },
        None => None,
    };
    match first {
        Some(x) => Some(x),
        None => scan_others(blocks, start, v, 0),
    }
}

/// The variable an instruction can lead to, whatever variable is asked.
pub open spec fn instr_follow(ins: InstrModel) -> Seq<Seq<char>> {
    match ins {
        InstrModel::Cast { source, .. } => seq![source.name],
        InstrModel::Assignment { rhs, .. } => seq![rhs_source(rhs)],
        _ => seq![],
    }
}

/// The variables the instructions of a block can lead to.
pub open spec fn block_follows(instrs: Seq<InstrModel>) -> Seq<Seq<char>>
    decreases instrs.len(),
{
    if instrs.len() == 0 {
        seq![]
    } else {
        block_follows(instrs.drop_last()) + instr_follow(instrs.last())
    }
}

/// The variables the instructions of the blocks can lead to.
pub open spec fn follows(blocks: Seq<BlockModel>) -> Seq<Seq<char>>
    decreases blocks.len(),
{
    if blocks.len() == 0 {
        seq![]
    } else {
        follows(blocks.drop_last()) + block_follows(blocks.last().instructions)
    }
}

/// The set of variables the blocks can lead to.
pub open spec fn follow_names(blocks: Seq<BlockModel>) -> Set<Seq<char>> {
    follows(blocks).to_set()
}

proof fn lemma_block_follow(instrs: Seq<InstrModel>, v: Seq<char>, n: Seq<char>)
    requires
        block_resolution(instrs, v) == Some(Resolution::Follow(n)),
    ensures
        block_follows(instrs).contains(n),
    decreases instrs.len(),
{
    let last = instrs.last();
    match instr_resolution(last, v) {
        Some(r) => {
            assert(instr_follow(last) == seq![n]);
            assert(block_follows(instrs) == block_follows(instrs.drop_last()) + seq![n]);
            assert(block_follows(instrs)[block_follows(instrs).len() - 1] == n);
        },
        None => {
            lemma_block_follow(instrs.drop_last(), v, n);
            let j = choose|j: int| 0 <= j < block_follows(instrs.drop_last()).len()
                && block_follows(instrs.drop_last())[j] == n;
            assert(block_follows(instrs)[j] == n);
        },
    }
}

proof fn lemma_follows_contains(blocks: Seq<BlockModel>, k: int, n: Seq<char>)
    requires
        0 <= k < blocks.len(),
        block_follows(blocks[k].instructions).contains(n),
    ensures
        follows(blocks).contains(n),
    decreases blocks.len(),
{
    let pre = follows(blocks.drop_last());
    let here = block_follows(blocks.last().instructions);
    assert(follows(blocks) == pre + here);
    if k == blocks.len() - 1 {
        let j = choose|j: int| 0 <= j < here.len() && here[j] == n;
        assert((pre + here)[pre.len() + j] == n);
    } else {
        assert(blocks.drop_last()[k] == blocks[k]);
        lemma_follows_contains(blocks.drop_last(), k, n);
        let j = choose|j: int| 0 <= j < pre.len() && pre[j] == n;
        assert((pre + here)[j] == n);
    }
}

proof fn lemma_scan_follow(blocks: Seq<BlockModel>, start: usize, v: Seq<char>, i: int, n: Seq<char>, b: usize)
    requires
        scan_others(blocks, start, v, i) == Some((Resolution::Follow(n), b)),
    ensures
        follows(blocks).contains(n),
    decreases blocks.len() - i,
{
    if blocks[i].id == start {
        lemma_scan_follow(blocks, start, v, i + 1, n, b);
    } else {
        match block_resolution(blocks[i].instructions, v) {
            Some(r) => {
                lemma_block_follow(blocks[i].instructions, v, n);
                lemma_follows_contains(blocks, i, n);
            },
            None => {
                lemma_scan_follow(blocks, start, v, i + 1, n, b);
            },
        }
    }
}

/// A variable that a step leads to is one the blocks can lead to.
pub proof fn lemma_step_follow(blocks: Seq<BlockModel>, v: Seq<char>, start: usize, n: Seq<char>, b: usize)
    requires
        step_resolution(blocks, v, start) == Some((Resolution::Follow(n), b)),
    ensures
        follow_names(blocks).contains(n),
{
    match block_index(blocks, start) {
        Some(k) => {
            lemma_first_where(blocks.len() as int, |i: int| blocks[i].id == start, 0);
            if block_resolution(blocks[k].instructions, v) is Some {
                lemma_block_follow(blocks[k].instructions, v, n);
                lemma_follows_contains(blocks, k, n);
            } else {
                lemma_scan_follow(blocks, start, v, 0, n, b);
            }
        },
        None => {
            lemma_scan_follow(blocks, start, v, 0, n, b);
        },
    }
}

/// The measure that bounds how far conditions are followed: the variables
/// left to visit, and one more while `v` is not among them.
pub open spec fn resolve_measure(blocks: Seq<BlockModel>, v: Seq<char>, visited: Set<Seq<char>>) -> int {
    follow_names(blocks).difference(visited).len() + if follow_names(blocks).contains(v) {
        0int
    } else {
        1int
    }
}

/// Following a variable leaves the measure smaller.
pub proof fn lemma_resolve_measure(
    blocks: Seq<BlockModel>,
    v: Seq<char>,
    visited: Set<Seq<char>>,
    n: Seq<char>,
)
    requires
        !visited.contains(v),
        follow_names(blocks).contains(n),
    ensures
        0 <= resolve_measure(blocks, n, visited.insert(v)) < resolve_measure(blocks, v, visited),
{
    broadcast use {vstd::set::group_set_axioms, vstd::seq_lib::seq_to_set_is_finite};

    let names = follow_names(blocks);
    let d = names.difference(visited);
    if names.contains(v) {
        assert(d.contains(v));
        assert(names.difference(visited.insert(v)) =~= d.remove(v));
    } else {
        assert(names.difference(visited.insert(v)) =~= d);
    }
}

/// The readable form of the condition variable `v` of block `start`: what
/// the blocks say of it, following casts and assignments to their sources;
/// a variable nothing says anything of, or one met again, stands for
/// itself.
pub open spec fn resolve_from(
    blocks: Seq<BlockModel>,
    v: Seq<char>,
    start: usize,
    visited: Set<Seq<char>>,
) -> Seq<char>
    decreases resolve_measure(blocks, v, visited),
{
    if visited.contains(v) {
        v
    } else {
        match step_resolution(blocks, v, start) {
            None => v,
            Some((Resolution::Text(t), _)) => t,
            Some((Resolution::Follow(n), b)) => {
                proof {
                    lemma_step_follow(blocks, v, start, n, b);
                    lemma_resolve_measure(blocks, v, visited, n);
                }
                resolve_from(blocks, n, b, visited.insert(v))
            },
        }
    }
}

/// The readable form of condition variable `v` of block `start`.
pub open spec fn spec_resolve(blocks: Seq<BlockModel>, v: Seq<char>, start: usize) -> Seq<char> {
    resolve_from(blocks, v, start, Set::empty())
}


/// What an instruction says of a condition variable, computed.
enum Settled {
    Text(Vec<char>),
    Follow(Vec<char>),
}

impl View for Settled {
    type V = Resolution;

    closed spec fn view(&self) -> Resolution {
        match self {
            Settled::Text(t) => Resolution::Text(t@),
            Settled::Follow(n) => Resolution::Follow(n@),
        }
    }
}

/// The model of an optional result.
spec fn settled_view(r: Option<Settled>) -> Option<Resolution> {
    match r {
        Some(x) => Some(x@),
        None => None,
    }
}

/// The source variable of an assignment's right-hand side, as
/// [`rhs_source`] says.
fn rhs_source_exec(rhs: &String) -> (r: Vec<char>)
    ensures
        r@ == rhs_source(rhs@),
{
    let c = to_chars(rhs.as_str());
    match find_char(&c, ':') {
        Some(k) => {
            proof {
                lemma_find_occurs(c@, seq![':']);
            }
            trim_chars(&take(&c, k))
        },
        None => trim_chars(&c),
    }
}

/// What instruction `ins` says of `v`, as [`instr_resolution`] says.
fn instr_settles(ins: &CfgInstruction, v: &Vec<char>) -> (r: Option<Settled>)
    ensures
        settled_view(r) == instr_resolution(ins@, v@),
{
    match ins {
        CfgInstruction::MethodCall { lhs, receiver, method_name, .. } => {
            if eq_str(v, lhs.name.as_str()) && !is_magic_method(
                &to_chars(method_name.as_str()),
                &to_chars(receiver.ty.as_str()),
            ) {
                let mut t = to_chars(receiver.name.as_str());
                t.push('.');
                append_str(&mut t, method_name.as_str());
                append_str(&mut t, "()");
                assert(t@ == receiver.name@ + seq!['.'] + method_name@ + "()"@);
                Some(Settled::Text(t))
            } else {
                None
            }
        },
        CfgInstruction::ArgPresent { lhs, arg_name } => {
            if eq_str(v, lhs.name.as_str()) {
                let mut t: Vec<char> = Vec::new();
                append_str(&mut t, "arg_present(");
                append_str(&mut t, arg_name.as_str());
                t.push(')');
                assert(t@ == "arg_present("@ + arg_name@ + seq![')']);
                Some(Settled::Text(t))
            } else {
                None
            }
        },
        CfgInstruction::Cast { lhs, source, .. } => {
            if eq_str(v, lhs.name.as_str()) {
                Some(Settled::Follow(to_chars(source.name.as_str())))
            } else {
                None
            }
        },
        CfgInstruction::Assignment { lhs, rhs } => {
            if eq_str(v, lhs.name.as_str()) {
                let src = rhs_source_exec(rhs);
                if src.len() > 0 {
                    Some(Settled::Follow(src))
                } else {
                    None
                }
            } else {
                None
            }
        },
        _ => None,
    }
}

/// What the last instruction that says anything of `v` says, as
/// [`block_resolution`] says.
fn block_settles(instrs: &Vec<CfgInstruction>, v: &Vec<char>) -> (r: Option<Settled>)
    ensures
        settled_view(r) == block_resolution(crate::cfg_text::instr_models(instrs@), v@),
{
    let ghost im = crate::cfg_text::instr_models(instrs@);
    let mut j: usize = instrs.len();
    while j > 0
        invariant
            j <= instrs.len(),
            im == crate::cfg_text::instr_models(instrs@),
            block_resolution(im, v@) == block_resolution(im.take(j as int), v@),
        decreases j,
    {
        assert(im.take(j as int).drop_last() == im.take(j - 1));
        assert(im.take(j as int).last() == instrs@[j - 1]@);
        let r = instr_settles(&instrs[j - 1], v);
        if r.is_some() {
            return r;
        }
        j -= 1;
    }
    assert(im.take(0) == Seq::<InstrModel>::empty());
    None
}

/// Position of the first block numbered `id`.
fn find_block(blocks: &Vec<CfgBasicBlock>, id: usize) -> (r: Option<usize>)
    ensures
        opt_int(r) == block_index(crate::cfg_text::block_models(blocks@), id),
        r matches Some(k) ==> k < blocks.len(),
{
    let ghost bm = crate::cfg_text::block_models(blocks@);
    let mut i: usize = 0;
    while i < blocks.len()
        invariant
            i <= blocks.len(),
            bm == crate::cfg_text::block_models(blocks@),
            forall|k: int| 0 <= k < i ==> (#[trigger] bm[k]).id != id,
        decreases blocks.len() - i,
    {
        if blocks[i].id == id {
            proof {
                lemma_first_where_is(bm.len() as int, |k: int| bm[k].id == id, Some(i as int));
            }
            return Some(i);
        }
        assert(bm[i as int].id != id);
        i += 1;
    }
    proof {
        lemma_first_where_is(bm.len() as int, |k: int| bm[k].id == id, None);
    }
    None
}

/// What the blocks say of `v`, as [`step_resolution`] says.
fn step_settles(blocks: &Vec<CfgBasicBlock>, v: &Vec<char>, start: usize) -> (r: Option<
    (Settled, usize),
>)
    ensures
        match r {
            Some((x, b)) => step_resolution(crate::cfg_text::block_models(blocks@), v@, start)
                == Some((x@, b)),
            None => step_resolution(crate::cfg_text::block_models(blocks@), v@, start) is None,
        },
{
    let ghost bm = crate::cfg_text::block_models(blocks@);
    match find_block(blocks, start) {
        Some(k) => {
            assert(bm[k as int] == blocks@[k as int]@);
            match block_settles(&blocks[k].instructions, v) {
                Some(x) => {
                    return Some((x, start));
                },
                None => {},
            }
        },
        None => {},
    }
    let mut i: usize = 0;
    while i < blocks.len()
        invariant
            i <= blocks.len(),
            bm == crate::cfg_text::block_models(blocks@),
            step_resolution(bm, v@, start) == scan_others(bm, start, v@, i as int),
        decreases blocks.len() - i,
    {
        assert(bm[i as int] == blocks@[i as int]@);
        if blocks[i].id != start {
            match block_settles(&blocks[i].instructions, v) {
                Some(x) => {
                    return Some((x, blocks[i].id));
                },
                None => {},
            }
        }
        i += 1;
    }
    None
}

/// The readable form of the condition variable `var_name` of block
/// `start_block_id`, as [`spec_resolve`] says.
fn resolve_condition(all_blocks: &Vec<CfgBasicBlock>, var_name: &Vec<char>, start_block_id: usize) -> (r:
    Vec<char>)
    ensures
        r@ == spec_resolve(crate::cfg_text::block_models(all_blocks@), var_name@, start_block_id),
{
    let ghost bm = crate::cfg_text::block_models(all_blocks@);
    let mut visited: Vec<Vec<char>> = Vec::new();
    let mut cur: Vec<char> = take(var_name, var_name.len());
    let mut start = start_block_id;
    assert(views(visited@).to_set() =~= Set::<Seq<char>>::empty());
    loop
        invariant
            bm == crate::cfg_text::block_models(all_blocks@),
            spec_resolve(bm, var_name@, start_block_id) == resolve_from(
                bm,
                cur@,
                start,
                views(visited@).to_set(),
            ),
        decreases resolve_measure(bm, cur@, views(visited@).to_set()),
    {
        let ghost vs = views(visited@).to_set();
        if contains_chars(&visited, &cur) {
            return cur;
        }
        match step_settles(all_blocks, &cur, start) {
            None => {
                return cur;
            },
            Some((Settled::Text(t), _)) => {
                return t;
            },
            Some((Settled::Follow(n), b)) => {
                proof {
                    lemma_step_follow(bm, cur@, start, n@, b);
                    lemma_resolve_measure(bm, cur@, vs, n@);
                }
                let ghost old_views = views(visited@);
                let ghost cv = cur@;
                visited.push(cur);
                cur = n;
                start = b;
                proof {
                    assert(views(visited@) =~= old_views.push(cv));
                    old_views.lemma_push_to_set_commute(cv);
                }
            },
        }
    }
}


// ---------------------------------------------------------------------------
// The block graph
// ---------------------------------------------------------------------------

/// A block has a `return` instruction.
pub open spec fn has_return(instrs: Seq<InstrModel>) -> bool {
    exists|i: int| 0 <= i < instrs.len() && instrs[i] is Return
}

/// A dead block: one that jumps to itself unconditionally.
pub open spec fn is_dead_block(b: BlockModel) -> bool {
    b.terminator matches TermModel::Unconditional { target } && target == b.id
}

/// The graph node of block `b` of `blocks`: a block with a `return` ends
/// the method; otherwise its terminator gives the edges, a conditional one
/// with its condition in readable form.
pub open spec fn block_view_of(blocks: Seq<BlockModel>, b: BlockModel) -> BlockView {
    BlockView {
        id: b.id,
        terminator: if has_return(b.instructions) {
            TermView::Return
        } else {
            match b.terminator {
                TermModel::Unconditional { target } => TermView::Goto(target),
                TermModel::Conditional { var, true_bb, false_bb } => TermView::Branch {
                    condition: spec_resolve(blocks, var.name, b.id),
                    true_bb,
                    false_bb,
                },
                TermModel::BlockCall { true_bb, false_bb } => TermView::BlockCall {
                    true_bb,
                    false_bb,
                },
            }
        },
    }
}

/// The graph nodes of the blocks of `part` that are not dead, in order.
pub open spec fn graph_of(blocks: Seq<BlockModel>, part: Seq<BlockModel>) -> Seq<BlockView>
    decreases part.len(),
{
    if part.len() == 0 {
        seq![]
    } else {
        let rest = graph_of(blocks, part.drop_last());
        if is_dead_block(part.last()) {
            rest
        } else {
            rest.push(block_view_of(blocks, part.last()))
        }
    }
}

/// The control-flow graph of a method's blocks.
pub open spec fn spec_basic_blocks(blocks: Seq<BlockModel>) -> Seq<BlockView> {
    graph_of(blocks, blocks)
}

/// Whether a block has a `return` instruction.
fn has_return_exec(instrs: &Vec<CfgInstruction>) -> (r: bool)
    ensures
        r == has_return(crate::cfg_text::instr_models(instrs@)),
{
    let ghost im = crate::cfg_text::instr_models(instrs@);
    let mut i: usize = 0;
    while i < instrs.len()
        invariant
            i <= instrs.len(),
            im == crate::cfg_text::instr_models(instrs@),
            forall|k: int| 0 <= k < i ==> !((#[trigger] im[k]) is Return),
        decreases instrs.len() - i,
    {
        if let CfgInstruction::Return { .. } = &instrs[i] {
            assert(im[i as int] is Return);
            return true;
        }
        assert(!(im[i as int] is Return));
        i += 1;
    }
    false
}

/// The control-flow graph of a method's blocks, as [`spec_basic_blocks`]
/// says.
fn build_basic_blocks(cfg_method: &CfgMethod) -> (r: Vec<BasicBlock>)
    ensures
        block_views(r@) == spec_basic_blocks(cfg_method@.blocks),
{
    let blocks = &cfg_method.blocks;
    let ghost bm = crate::cfg_text::block_models(blocks@);
    let mut r: Vec<BasicBlock> = Vec::new();
    let mut i: usize = 0;
    while i < blocks.len()
        invariant
            i <= blocks.len(),
            blocks == &cfg_method.blocks,
            bm == crate::cfg_text::block_models(blocks@),
            bm == cfg_method@.blocks,
            block_views(r@) == graph_of(bm, bm.take(i as int)),
        decreases blocks.len() - i,
    {
        assert(bm.take(i + 1).drop_last() == bm.take(i as int));
        let block = &blocks[i];
        assert(bm.take(i + 1).last() == block@);
        let dead = match &block.terminator {
            CfgTerminator::Unconditional { target } => *target == block.id,
            _ => false,
        };
        if !dead {
            let terminator = if has_return_exec(&block.instructions) {
                Terminator::Return
            } else {
                match &block.terminator {
                    CfgTerminator::Unconditional { target } => Terminator::Goto(*target),
                    CfgTerminator::Conditional { var, true_bb, false_bb } => {
                        let v = to_chars(var.name.as_str());
                        let condition = string_from_chars(&resolve_condition(blocks, &v, block.id));
                        Terminator::Branch { condition, true_bb: *true_bb, false_bb: *false_bb }
                    },
                    CfgTerminator::BlockCall { true_bb, false_bb } => Terminator::BlockCall {
                        true_bb: *true_bb,
                        false_bb: *false_bb,
                    },
                }
            };
            r.push(BasicBlock { id: block.id, terminator });
        }
        assert(block_views(r@) =~= graph_of(bm, bm.take(i + 1)));
        i += 1;
    }
    assert(bm.take(blocks.len() as int) == bm);
    r
}

/// The edges from block `b` into block `t`: a jump is unconditional, and a
/// branch or block call gives its true edge and then its false edge.
pub open spec fn edges_to(b: BlockView, t: usize) -> Seq<(usize, Option<bool>)> {
    match b.terminator {
        TermView::Goto(x) => if x == t {
            seq![(b.id, None)]
        } else {
            seq![]
        },
        TermView::Branch { true_bb, false_bb, .. } => (if true_bb == t {
            seq![(b.id, Some(true))]
        } else {
            seq![]
        }) + (if false_bb == t {
            seq![(b.id, Some(false))]
        } else {
            seq![]
        }),
        TermView::BlockCall { true_bb, false_bb } => (if true_bb == t {
            seq![(b.id, Some(true))]
        } else {
            seq![]
        }) + (if false_bb == t {
            seq![(b.id, Some(false))]
        } else {
            seq![]
        }),
        TermView::Return => seq![],
    }
}

/// The predecessors of block `t`, with the direction of each edge (`None`
/// for a jump), in the order of the blocks.
pub open spec fn preds_of(bbs: Seq<BlockView>, t: usize) -> Seq<(usize, Option<bool>)>
    decreases bbs.len(),
{
    if bbs.len() == 0 {
        seq![]
    } else {
        preds_of(bbs.drop_last(), t) + edges_to(bbs.last(), t)
    }
}

/// The list a predecessor map holds for `t`; empty when it has none.
pub open spec fn pred_list(m: Map<usize, Vec<(usize, Option<bool>)>>, t: usize) -> Seq<
    (usize, Option<bool>),
> {
    if m.contains_key(t) {
        m[t]@
    } else {
        seq![]
    }
}

/// Adds edge `e` to the predecessors of `t`.
fn add_edge(m: &mut HashMap<usize, Vec<(usize, Option<bool>)>>, t: usize, e: (usize, Option<bool>))
    ensures
        forall|k: usize|
            #[trigger] pred_list(final(m)@, k) == if k == t {
                pred_list(old(m)@, k).push(e)
            } else {
                pred_list(old(m)@, k)
            },
        forall|k: usize| #[trigger]
            final(m)@.contains_key(k) <==> (k == t || old(m)@.contains_key(k)),
{
    let mut list = match m.remove(&t) {
        Some(l) => l,
        None => Vec::new(),
    };
    list.push(e);
    m.insert(t, list);
}

/// The predecessors of every block: the list for `t` is
/// [`preds_of`]`(bbs, t)`, and the map's keys are exactly the blocks that
/// have a predecessor.
fn build_predecessor_map(basic_blocks: &Vec<BasicBlock>) -> (m: HashMap<
    usize,
    Vec<(usize, Option<bool>)>,
>)
    ensures
        forall|t: usize| #[trigger] pred_list(m@, t) == preds_of(block_views(basic_blocks@), t),
        forall|t: usize| #[trigger]
            m@.contains_key(t) <==> preds_of(block_views(basic_blocks@), t).len() > 0,
{
    let ghost bv = block_views(basic_blocks@);
    let mut preds: HashMap<usize, Vec<(usize, Option<bool>)>> = HashMap::new();
    let mut i: usize = 0;
    while i < basic_blocks.len()
        invariant
            i <= basic_blocks.len(),
            bv == block_views(basic_blocks@),
            forall|t: usize| #[trigger] pred_list(preds@, t) == preds_of(bv.take(i as int), t),
            forall|t: usize| #[trigger] preds@.contains_key(t) ==> preds@[t]@.len() > 0,
        decreases basic_blocks.len() - i,
    {
        assert(bv.take(i + 1).drop_last() == bv.take(i as int));
        let bb = &basic_blocks[i];
        assert(bv.take(i + 1).last() == bb@);
        let ghost before = preds@;
        match &bb.terminator {
            Terminator::Goto(target) => {
                add_edge(&mut preds, *target, (bb.id, None));
            },
            Terminator::Branch { true_bb, false_bb, .. } => {
                add_edge(&mut preds, *true_bb, (bb.id, Some(true)));
                add_edge(&mut preds, *false_bb, (bb.id, Some(false)));
            },
            Terminator::BlockCall { true_bb, false_bb } => {
                add_edge(&mut preds, *true_bb, (bb.id, Some(true)));
                add_edge(&mut preds, *false_bb, (bb.id, Some(false)));
            },
            Terminator::Return => {},
        }
        assert forall|t: usize| #[trigger]
            pred_list(preds@, t) == preds_of(bv.take(i + 1), t) by {
            assert(preds_of(bv.take(i + 1), t) == preds_of(bv.take(i as int), t) + edges_to(bb@, t));
            assert(pred_list(before, t) == preds_of(bv.take(i as int), t));
            assert(pred_list(preds@, t) =~= pred_list(before, t) + edges_to(bb@, t));
        }
        assert forall|t: usize| #[trigger] preds@.contains_key(t) implies preds@[t]@.len() > 0 by {
            assert(pred_list(preds@, t) == preds@[t]@);
            if !before.contains_key(t) {
                assert(pred_list(before, t).len() == 0);
            }
        }
        i += 1;
    }
    assert(bv.take(basic_blocks.len() as int) == bv);
    assert forall|t: usize| #[trigger]
        preds@.contains_key(t) <==> preds_of(bv, t).len() > 0 by {
        assert(pred_list(preds@, t) == preds_of(bv, t));
    }
    preds
}

/// The numbers of the blocks.
pub open spec fn block_ids(bbs: Seq<BlockView>) -> Seq<usize> {
    bbs.map_values(|b: BlockView| b.id)
}

/// Every predecessor is one of the blocks.
proof fn lemma_preds_in_ids(bbs: Seq<BlockView>, t: usize, j: int)
    requires
        0 <= j < preds_of(bbs, t).len(),
    ensures
        block_ids(bbs).contains(preds_of(bbs, t)[j].0),
    decreases bbs.len(),
{
    let pre = preds_of(bbs.drop_last(), t);
    let here = edges_to(bbs.last(), t);
    assert(preds_of(bbs, t) == pre + here);
    if j < pre.len() {
        lemma_preds_in_ids(bbs.drop_last(), t, j);
        let k = choose|k: int| 0 <= k < block_ids(bbs.drop_last()).len() && block_ids(
            bbs.drop_last(),
        )[k] == pre[j].0;
        assert(block_ids(bbs)[k] == pre[j].0);
    } else {
        assert(here[j - pre.len()].0 == bbs.last().id);
        assert(block_ids(bbs)[bbs.len() - 1] == bbs.last().id);
    }
}

/// The measure that bounds the walk back to the entry: the blocks left to
/// visit, and one more while `cur` is not among them.
pub open spec fn walk_measure(bbs: Seq<BlockView>, cur: usize, visited: Set<usize>) -> int {
    block_ids(bbs).to_set().difference(visited).len() + if block_ids(bbs).to_set().contains(cur) {
        0int
    } else {
        1int
    }
}

/// Stepping to a predecessor leaves the measure smaller.
pub proof fn lemma_walk_measure(bbs: Seq<BlockView>, cur: usize, visited: Set<usize>, j: int)
    requires
        !visited.contains(cur),
        0 <= j < preds_of(bbs, cur).len(),
    ensures
        0 <= walk_measure(bbs, preds_of(bbs, cur)[j].0, visited.insert(cur)) < walk_measure(
            bbs,
            cur,
            visited,
        ),
{
    broadcast use {vstd::set::group_set_axioms, vstd::seq_lib::seq_to_set_is_finite};

    lemma_preds_in_ids(bbs, cur, j);
    let ids = block_ids(bbs).to_set();
    let d = ids.difference(visited);
    if ids.contains(cur) {
        assert(d.contains(cur));
        assert(ids.difference(visited.insert(cur)) =~= d.remove(cur));
    } else {
        assert(ids.difference(visited.insert(cur)) =~= d);
    }
}

/// Position of the first graph node numbered `id`.
pub open spec fn view_index(bbs: Seq<BlockView>, id: usize) -> Option<int> {
    first_where(bbs.len() as int, |i: int| bbs[i].id == id, 0)
}

/// The condition recorded for an edge from block `pred` taken in direction
/// `dir`: a conditional edge out of a branch records the branch's condition
/// and the direction; other edges record nothing.
pub open spec fn edge_condition(bbs: Seq<BlockView>, pred: usize, dir: Option<bool>) -> Seq<CondModel> {
    match dir {
        Some(is_true) => match view_index(bbs, pred) {
            Some(k) => match bbs[k].terminator {
                TermView::Branch { condition, .. } => seq![CondModel { call: condition, is_true }],
                _ => seq![],
            },
            None => seq![],
        },
        None => seq![],
    }
}

/// The conditions met walking back from block `cur` while each block has
/// exactly one predecessor, nearest first; the walk stops at a block seen
/// before.
pub open spec fn conds_from(bbs: Seq<BlockView>, cur: usize, visited: Set<usize>) -> Seq<CondModel>
    decreases walk_measure(bbs, cur, visited),
{
    if visited.contains(cur) {
        seq![]
    } else {
        let p = preds_of(bbs, cur);
        if p.len() != 1 {
            seq![]
        } else {
            proof {
                lemma_walk_measure(bbs, cur, visited, 0);
            }
            edge_condition(bbs, p[0].0, p[0].1) + conds_from(bbs, p[0].0, visited.insert(cur))
        }
    }
}

/// The branch conditions on the way to block `bb_id`, entry side first.
pub open spec fn spec_conditions(bbs: Seq<BlockView>, bb_id: usize) -> Seq<CondModel> {
    conds_from(bbs, bb_id, Set::empty()).reverse()
}

/// Whether `x` is one of `v`.
fn has_id(v: &Vec<usize>, x: usize) -> (r: bool)
    ensures
        r == v@.contains(x),
{
    let mut i: usize = 0;
    while i < v.len()
        invariant
            i <= v.len(),
            forall|j: int| 0 <= j < i ==> v@[j] != x,
        decreases v.len() - i,
    {
        if v[i] == x {
            return true;
        }
        i += 1;
    }
    false
}

/// The condition recorded for an edge, as [`edge_condition`] says.
fn edge_condition_exec(basic_blocks: &Vec<BasicBlock>, pred: usize, dir: Option<bool>) -> (r: Option<
    BranchCondition,
>)
    ensures
        match r {
            Some(c) => edge_condition(block_views(basic_blocks@), pred, dir) == seq![c@],
            None => edge_condition(block_views(basic_blocks@), pred, dir) == Seq::<
                CondModel,
            >::empty(),
        },
{
    let ghost bv = block_views(basic_blocks@);
    match dir {
        Some(is_true) => {
            let mut i: usize = 0;
            while i < basic_blocks.len()
                invariant
                    i <= basic_blocks.len(),
                    bv == block_views(basic_blocks@),
                    dir == Some(is_true),
                    forall|k: int| 0 <= k < i ==> (#[trigger] bv[k]).id != pred,
                decreases basic_blocks.len() - i,
            {
                if basic_blocks[i].id == pred {
                    proof {
                        lemma_first_where_is(
                            bv.len() as int,
                            |k: int| bv[k].id == pred,
                            Some(i as int),
                        );
                    }
                    let b = &basic_blocks[i];
                    assert(bv[i as int] == b@);
                    return match &b.terminator {
                        Terminator::Branch { condition, true_bb, false_bb } => {
                            let c = BranchCondition { call: condition.clone(), is_true };
                            assert(b@.terminator == TermView::Branch {
                                condition: condition@,
                                true_bb: *true_bb,
                                false_bb: *false_bb,
                            });
                            assert(edge_condition(bv, pred, dir) == seq![c@]);
                            Some(c)
                        },
                        _ => None,
                    };
                }
                assert(bv[i as int].id != pred);
                i += 1;
            }
            proof {
                lemma_first_where_is(bv.len() as int, |k: int| bv[k].id == pred, None);
            }
            None
        },
        None => None,
    }
}

/// The branch conditions on the way to block `bb_id`, as
/// [`spec_conditions`] says.
fn compute_conditions(
    bb_id: usize,
    basic_blocks: &Vec<BasicBlock>,
    predecessors: &HashMap<usize, Vec<(usize, Option<bool>)>>,
) -> (r: Vec<BranchCondition>)
    requires
        forall|t: usize| #[trigger]
            pred_list(predecessors@, t) == preds_of(block_views(basic_blocks@), t),
    ensures
        cond_models(r@) == spec_conditions(block_views(basic_blocks@), bb_id),
{
    let ghost bv = block_views(basic_blocks@);
    let mut conditions: Vec<BranchCondition> = Vec::new();
    let mut current = bb_id;
    let mut visited: Vec<usize> = Vec::new();
    assert(visited@.to_set() =~= Set::<usize>::empty());
    loop
        invariant
            bv == block_views(basic_blocks@),
            forall|t: usize| #[trigger]
                pred_list(predecessors@, t) == preds_of(bv, t),
            conds_from(bv, bb_id, Set::empty()) == cond_models(conditions@) + conds_from(
                bv,
                current,
                visited@.to_set(),
            ),
        ensures
            conds_from(bv, current, visited@.to_set()) == Seq::<CondModel>::empty(),
            conds_from(bv, bb_id, Set::empty()) == cond_models(conditions@) + conds_from(
                bv,
                current,
                visited@.to_set(),
            ),
        decreases walk_measure(bv, current, visited@.to_set()),
    {
        let ghost vs = visited@.to_set();
        if has_id(&visited, current) {
            break;
        }
        assert(pred_list(predecessors@, current) == preds_of(bv, current));
        let (pred_bb, direction) = match predecessors.get(&current) {
            Some(p) => {
                if p.len() != 1 {
                    break;
                }
                p[0]
            },
            None => {
                break;
            },
        };
        proof {
            lemma_walk_measure(bv, current, vs, 0);
        }
        let ghost before = cond_models(conditions@);
        match edge_condition_exec(basic_blocks, pred_bb, direction) {
            Some(c) => {
                conditions.push(c);
            },
            None => {},
        }
        assert(cond_models(conditions@) =~= before + edge_condition(bv, pred_bb, direction));
        let ghost old_visited = visited@;
        visited.push(current);
        proof {
            old_visited.lemma_push_to_set_commute(current);
        }
        current = pred_bb;
    }
    assert(conds_from(bv, current, visited@.to_set()) == Seq::<CondModel>::empty());
    let mut out: Vec<BranchCondition> = Vec::new();
    let ghost cm = cond_models(conditions@);
    while conditions.len() > 0
        invariant
            cond_models(out@) + cond_models(conditions@).reverse() == cm.reverse(),
        decreases conditions.len(),
    {
        let ghost pre = cond_models(conditions@);
        let c = conditions.pop().unwrap();
        assert(cond_models(conditions@) == pre.drop_last());
        assert(pre.reverse() =~= seq![c@] + pre.drop_last().reverse());
        out.push(c);
        assert(cond_models(out@) + cond_models(conditions@).reverse() =~= cm.reverse());
    }
    assert(cond_models(out@) =~= cm.reverse());
    out
}


// ---------------------------------------------------------------------------
// Methods
// ---------------------------------------------------------------------------

/// The instructions of a block, each with the block's number.
pub open spec fn tagged(b: BlockModel) -> Seq<(usize, InstrModel)> {
    b.instructions.map_values(|i: InstrModel| (b.id, i))
}

/// The instructions of the blocks in order, each with its block's number.
pub open spec fn instr_stream(blocks: Seq<BlockModel>) -> Seq<(usize, InstrModel)>
    decreases blocks.len(),
{
    if blocks.len() == 0 {
        seq![]
    } else {
        instr_stream(blocks.drop_last()) + tagged(blocks.last())
    }
}

/// The parameters loaded by `load_arg`, with their types, in order.
pub open spec fn arg_decls(st: Seq<(usize, InstrModel)>) -> Seq<(Seq<char>, TypeModel)>
    decreases st.len(),
{
    if st.len() == 0 {
        seq![]
    } else {
        let rest = arg_decls(st.drop_last());
        match st.last().1 {
            InstrModel::LoadArg { lhs, arg_name } => rest.push((arg_name, spec_parse_type(lhs.ty))),
            _ => rest,
        }
    }
}

/// The parameters tested by `arg_present`, in order.
pub open spec fn present_args(st: Seq<(usize, InstrModel)>) -> Seq<Seq<char>>
    decreases st.len(),
{
    if st.len() == 0 {
        seq![]
    } else {
        let rest = present_args(st.drop_last());
        match st.last().1 {
            InstrModel::ArgPresent { arg_name, .. } => rest.push(arg_name),
            _ => rest,
        }
    }
}

/// The calls, other than Sorbet's internal ones: receiver type, method
/// name, result type and block number, in order.
pub open spec fn raw_calls(st: Seq<(usize, InstrModel)>) -> Seq<
    (TypeModel, Seq<char>, TypeModel, usize),
>
    decreases st.len(),
{
    if st.len() == 0 {
        seq![]
    } else {
        let rest = raw_calls(st.drop_last());
        match st.last().1 {
            InstrModel::MethodCall { lhs, receiver, method_name, .. } => if !spec_is_magic_method(
                method_name,
                receiver.ty,
            ) {
                rest.push(
                    (
                        spec_parse_type(receiver.ty),
                        method_name,
                        spec_parse_type(lhs.ty),
                        st.last().0,
                    ),
                )
            } else {
                rest
            },
            _ => rest,
        }
    }
}

/// The instance variables read by `alias @name`, with their types, in
/// order.
pub open spec fn ivar_reads(st: Seq<(usize, InstrModel)>) -> Seq<IvarModel>
    decreases st.len(),
{
    if st.len() == 0 {
        seq![]
    } else {
        let rest = ivar_reads(st.drop_last());
        match st.last().1 {
            InstrModel::Alias { lhs, kind: AliasModel::Ivar(name) } => rest.push(
                IvarModel { name, ty: spec_parse_type(lhs.ty) },
            ),
            _ => rest,
        }
    }
}

/// The types returned, each once, in order of first appearance.
pub open spec fn return_types(st: Seq<(usize, InstrModel)>) -> Seq<TypeModel>
    decreases st.len(),
{
    if st.len() == 0 {
        seq![]
    } else {
        let rest = return_types(st.drop_last());
        match st.last().1 {
            InstrModel::Return { value } => {
                let t = spec_parse_type(value.ty);
                if rest.contains(t) {
                    rest
                } else {
                    rest.push(t)
                }
            },
            _ => rest,
        }
    }
}

/// The return type of a method from the types it returns: none when it
/// returns nothing, `T.untyped` when any is untyped, the one type, or the
/// union of them all.
pub open spec fn combine_returns(rs: Seq<TypeModel>) -> Option<TypeModel> {
    if rs.len() == 0 {
        None
    } else if rs.contains(TypeModel::Untyped) {
        Some(TypeModel::Untyped)
    } else if rs.len() == 1 {
        Some(rs[0])
    } else {
        Some(TypeModel::Union(rs))
    }
}

/// The exception class an instruction tests for: a `===` call on a
/// `T.class_of(E)` receiver gives `E`.
pub open spec fn instr_rescue(ins: InstrModel) -> Seq<Seq<char>> {
    match ins {
        InstrModel::MethodCall { receiver, method_name, .. } => if method_name == "==="@ {
            match spec_strip_prefix(receiver.ty, "T.class_of("@) {
                Some(rest) => match spec_strip_suffix(rest, seq![')']) {
                    Some(inner) => seq![inner],
                    None => seq![],
                },
                None => seq![],
            }
        } else {
            seq![]
        },
        _ => seq![],
    }
}

/// The exception classes a block tests for, in order.
pub open spec fn block_rescues(instrs: Seq<InstrModel>) -> Seq<Seq<char>>
    decreases instrs.len(),
{
    if instrs.len() == 0 {
        seq![]
    } else {
        block_rescues(instrs.drop_last()) + instr_rescue(instrs.last())
    }
}

/// The exception classes tested in blocks that end in a conditional
/// branch, in order.
pub open spec fn rescues_of(blocks: Seq<BlockModel>) -> Seq<Seq<char>>
    decreases blocks.len(),
{
    if blocks.len() == 0 {
        seq![]
    } else {
        let b = blocks.last();
        rescues_of(blocks.drop_last()) + if b.terminator is Conditional {
            block_rescues(b.instructions)
        } else {
            seq![]
        }
    }
}

/// A block loads `self` or yield parameters.
pub open spec fn loads_block_values(instrs: Seq<InstrModel>) -> bool {
    exists|i: int|
        0 <= i < instrs.len() && (instrs[i] is LoadSelf || instrs[i] is LoadYieldParams)
}

/// A method uses its block: some block calls it, or loads `self` or yield
/// parameters.
pub open spec fn uses_block(blocks: Seq<BlockModel>) -> bool {
    exists|k: int|
        0 <= k < blocks.len() && (blocks[k].terminator is BlockCall || loads_block_values(
            blocks[k].instructions,
        ))
}

/// `a` comes before `b` in the order of `String`: character by character,
/// a proper prefix first (UTF-8 byte order is code point order).
pub open spec fn text_lt(a: Seq<char>, b: Seq<char>) -> bool
    decreases a.len(),
{
    if a.len() == 0 {
        b.len() > 0
    } else if b.len() == 0 {
        false
    } else if a[0] != b[0] {
        (a[0] as int) < (b[0] as int)
    } else {
        text_lt(a.drop_first(), b.drop_first())
    }
}

/// Where a read named `name` goes in a list sorted by name: before the
/// first entry that does not come before it.
pub open spec fn insert_position(acc: Seq<IvarModel>, name: Seq<char>) -> int {
    match first_where(acc.len() as int, |k: int| !text_lt(acc[k].name, name), 0) {
        Some(k) => k,
        None => acc.len() as int,
    }
}

/// `acc` with read `x` added in name order, unless a read of that name is
/// already there.
pub open spec fn insert_ivar(acc: Seq<IvarModel>, x: IvarModel) -> Seq<IvarModel> {
    if exists|k: int| 0 <= k < acc.len() && acc[k].name == x.name {
        acc
    } else {
        acc.insert(insert_position(acc, x.name), x)
    }
}

/// The reads sorted by name with later reads of a name dropped: a stable
/// sort followed by removing repeated names.
pub open spec fn sorted_ivars(reads: Seq<IvarModel>) -> Seq<IvarModel>
    decreases reads.len(),
{
    if reads.len() == 0 {
        seq![]
    } else {
        insert_ivar(sorted_ivars(reads.drop_last()), reads.last())
    }
}

/// What a cfg-text method tells: `None` for a header that names no method
/// (see [`spec_parse_method_fqn`]); otherwise its parameters (optional when
/// some `arg_present` tests them), calls with the branch conditions that
/// lead to them, instance variables, return type, tested exception classes,
/// block use and control-flow graph.
pub open spec fn spec_method_info(m: MethodModel) -> Option<InfoModel> {
    match spec_parse_method_fqn(m.raw_name) {
        None => None,
        Some(fqn) => {
            let st = instr_stream(m.blocks);
            let decls = arg_decls(st);
            let present = present_args(st);
            let rc = raw_calls(st);
            let bbs = spec_basic_blocks(m.blocks);
            Some(
                InfoModel {
                    fqn,
                    file_path: None,
                    line: None,
                    arguments: Seq::new(
                        decls.len(),
                        |i: int|
                            ArgModel {
                                name: decls[i].0,
                                ty: decls[i].1,
                                is_optional: present.contains(decls[i].0),
                            },
                    ),
                    return_type: combine_returns(return_types(st)),
                    calls: Seq::new(
                        rc.len(),
                        |i: int|
                            CallModel {
                                receiver_type: rc[i].0,
                                method_name: rc[i].1,
                                return_type: rc[i].2,
                                bb_id: rc[i].3,
                                conditions: spec_conditions(bbs, rc[i].3),
                            },
                    ),
                    ivars: sorted_ivars(ivar_reads(st)),
                    rescues: rescues_of(m.blocks),
                    uses_block: uses_block(m.blocks),
                    basic_blocks: bbs,
                },
            )
        },
    }
}


/// Names and types of parameters.
spec fn decl_view(v: Seq<Argument>) -> Seq<(Seq<char>, TypeModel)> {
    v.map_values(|a: Argument| (a.name@, a.ty@))
}

/// Calls without their conditions.
spec fn raw_call_view(v: Seq<MethodCall>) -> Seq<(TypeModel, Seq<char>, TypeModel, usize)> {
    v.map_values(|c: MethodCall| (c.receiver_type@, c.method_name@, c.return_type@, c.bb_id))
}

/// Models of types.
spec fn type_views(v: Seq<SorbetType>) -> Seq<TypeModel> {
    v.map_values(|t: SorbetType| t@)
}

/// The stream of instructions up to instruction `j` of block `b`.
spec fn stream_prefix(bm: Seq<BlockModel>, b: int, j: int) -> Seq<(usize, InstrModel)> {
    instr_stream(bm.take(b)) + tagged(bm[b]).take(j)
}

proof fn lemma_stream_step(bm: Seq<BlockModel>, b: int, j: int)
    requires
        0 <= b < bm.len(),
        0 <= j < bm[b].instructions.len(),
    ensures
        stream_prefix(bm, b, j + 1).len() > 0,
        stream_prefix(bm, b, j + 1).drop_last() == stream_prefix(bm, b, j),
        stream_prefix(bm, b, j + 1).last() == (bm[b].id, bm[b].instructions[j]),
{
    assert(stream_prefix(bm, b, j + 1).drop_last() =~= stream_prefix(bm, b, j));
}

proof fn lemma_stream_block(bm: Seq<BlockModel>, b: int)
    requires
        0 <= b < bm.len(),
    ensures
        instr_stream(bm.take(b + 1)) == stream_prefix(bm, b, bm[b].instructions.len() as int),
        stream_prefix(bm, b, 0) == instr_stream(bm.take(b)),
{
    assert(bm.take(b + 1).drop_last() =~= bm.take(b));
    assert(tagged(bm[b]).take(bm[b].instructions.len() as int) =~= tagged(bm[b]));
    assert(tagged(bm[b]).take(0) =~= Seq::<(usize, InstrModel)>::empty());
    assert(stream_prefix(bm, b, 0) =~= instr_stream(bm.take(b)));
}

/// Whether `t` is one of `v`.
fn contains_type(v: &Vec<SorbetType>, t: &SorbetType) -> (r: bool)
    ensures
        r == type_views(v@).contains(t@),
{
    let mut i: usize = 0;
    while i < v.len()
        invariant
            i <= v.len(),
            forall|j: int| 0 <= j < i ==> v@[j]@ != t@,
        decreases v.len() - i,
    {
        if type_eq(&v[i], t) {
            assert(type_views(v@)[i as int] == t@);
            return true;
        }
        i += 1;
    }
    assert forall|j: int| 0 <= j < v.len() implies type_views(v@)[j] != t@ by {
        assert(v@[j]@ != t@);
    }
    false
}

/// What the instruction stream of a method gives, before the last steps.
struct Collected {
    args: Vec<Argument>,
    present: Vec<Vec<char>>,
    calls: Vec<MethodCall>,
    ivars: Vec<IvarAccess>,
    ret_types: Vec<SorbetType>,
}

/// The lists of [`arg_decls`], [`present_args`], [`raw_calls`],
/// [`ivar_reads`] and [`return_types`] for the whole stream.
spec fn collected_from(c: Collected, st: Seq<(usize, InstrModel)>) -> bool {
    &&& decl_view(c.args@) == arg_decls(st)
    &&& views(c.present@) == present_args(st)
    &&& raw_call_view(c.calls@) == raw_calls(st)
    &&& ivar_models(c.ivars@) == ivar_reads(st)
    &&& type_views(c.ret_types@) == return_types(st)
    &&& forall|i: int| 0 <= i < c.calls@.len() ==> (#[trigger] c.calls@[i]).conditions@.len() == 0
}

/// Adds what one instruction of block `bb_id` gives.
fn collect_instr(c: &mut Collected, bb_id: usize, instr: &CfgInstruction)
    ensures
        forall|st: Seq<(usize, InstrModel)>|
            collected_from(*old(c), st) ==> #[trigger] collected_from(
                *final(c),
                st.push((bb_id, instr@)),
            ),
{
    let ghost c0 = *c;
    match instr {
        CfgInstruction::LoadArg { lhs, arg_name } => {
            c.args.push(
                Argument {
                    name: arg_name.clone(),
                    ty: parse_sorbet_type(lhs.ty.as_str()),
                    is_optional: false,
                },
            );
        },
        CfgInstruction::ArgPresent { arg_name, .. } => {
            c.present.push(to_chars(arg_name.as_str()));
        },
        CfgInstruction::MethodCall { lhs, receiver, method_name, .. } => {
            if !is_magic_method(&to_chars(method_name.as_str()), &to_chars(receiver.ty.as_str())) {
                c.calls.push(
                    MethodCall {
                        receiver_type: parse_sorbet_type(receiver.ty.as_str()),
                        method_name: method_name.clone(),
                        return_type: parse_sorbet_type(lhs.ty.as_str()),
                        bb_id,
                        conditions: Vec::new(),
                    },
                );
            }
        },
        CfgInstruction::Alias { lhs, kind } => {
            match kind {
                AliasKind::Ivar(name) => {
                    c.ivars.push(
                        IvarAccess { name: name.clone(), ty: parse_sorbet_type(lhs.ty.as_str()) },
                    );
                },
                AliasKind::Constant(_) => {},
            }
        },
        CfgInstruction::Return { value } => {
            let t = parse_sorbet_type(value.ty.as_str());
            if !contains_type(&c.ret_types, &t) {
                c.ret_types.push(t);
            }
        },
        _ => {},
    }
    assert forall|st: Seq<(usize, InstrModel)>|
        collected_from(c0, st) implies #[trigger] collected_from(*c, st.push((bb_id, instr@))) by {
        let st2 = st.push((bb_id, instr@));
        assert(st2.drop_last() == st);
        assert(st2.last() == (bb_id, instr@));
        assert(decl_view(c.args@) =~= arg_decls(st2));
        assert(views(c.present@) =~= present_args(st2));
        assert(raw_call_view(c.calls@) =~= raw_calls(st2));
        assert(ivar_models(c.ivars@) =~= ivar_reads(st2));
        assert(type_views(c.ret_types@) =~= return_types(st2));
    }
}

/// The lists the instruction stream of the blocks gives.
fn collect(blocks: &Vec<CfgBasicBlock>) -> (c: Collected)
    ensures
        collected_from(c, instr_stream(crate::cfg_text::block_models(blocks@))),
{
    let ghost bm = crate::cfg_text::block_models(blocks@);
    let mut c = Collected {
        args: Vec::new(),
        present: Vec::new(),
        calls: Vec::new(),
        ivars: Vec::new(),
        ret_types: Vec::new(),
    };
    assert(collected_from(c, instr_stream(bm.take(0)))) by {
        assert(bm.take(0) =~= Seq::<BlockModel>::empty());
        assert(decl_view(c.args@) =~= Seq::empty());
        assert(views(c.present@) =~= Seq::empty());
        assert(raw_call_view(c.calls@) =~= Seq::empty());
        assert(ivar_models(c.ivars@) =~= Seq::empty());
        assert(type_views(c.ret_types@) =~= Seq::empty());
    }
    let mut b: usize = 0;
    while b < blocks.len()
        invariant
            b <= blocks.len(),
            bm == crate::cfg_text::block_models(blocks@),
            collected_from(c, instr_stream(bm.take(b as int))),
        decreases blocks.len() - b,
    {
        let block = &blocks[b];
        assert(bm[b as int] == block@);
        proof {
            lemma_stream_block(bm, b as int);
        }
        let mut j: usize = 0;
        while j < block.instructions.len()
            invariant
                b < blocks.len(),
                block == &blocks[b as int],
                bm == crate::cfg_text::block_models(blocks@),
                bm[b as int] == block@,
                j <= block.instructions.len(),
                collected_from(c, stream_prefix(bm, b as int, j as int)),
            decreases block.instructions.len() - j,
        {
            proof {
                lemma_stream_step(bm, b as int, j as int);
            }
            assert(bm[b as int].instructions[j as int] == block.instructions@[j as int]@);
            let ghost pre = stream_prefix(bm, b as int, j as int);
            collect_instr(&mut c, block.id, &block.instructions[j]);
            assert(collected_from(c, pre.push((block.id, block.instructions@[j as int]@))));
            assert(stream_prefix(bm, b as int, j + 1) =~= pre.push(
                (block.id, block.instructions@[j as int]@),
            ));
            j += 1;
        }
        b += 1;
    }
    assert(bm.take(blocks.len() as int) == bm);
    c
}

/// Whether `a` comes before `b`, as [`text_lt`] says.
fn chars_lt(a: &Vec<char>, b: &Vec<char>) -> (r: bool)
    ensures
        r == text_lt(a@, b@),
{
    let mut i: usize = 0;
    while i < a.len() && i < b.len()
        invariant
            i <= a.len(),
            i <= b.len(),
            text_lt(a@, b@) == text_lt(a@.skip(i as int), b@.skip(i as int)),
        decreases a.len() - i,
    {
        assert(a@.skip(i as int)[0] == a@[i as int]);
        assert(b@.skip(i as int)[0] == b@[i as int]);
        if a[i] != b[i] {
            return a[i] < b[i];
        }
        assert(a@.skip(i as int).drop_first() == a@.skip(i + 1));
        assert(b@.skip(i as int).drop_first() == b@.skip(i + 1));
        i += 1;
    }
    i < b.len()
}

/// Adds read `x` to `acc` as [`insert_ivar`] says.
fn insert_ivar_exec(acc: &mut Vec<IvarAccess>, x: IvarAccess)
    ensures
        ivar_models(final(acc)@) == insert_ivar(ivar_models(old(acc)@), x@),
{
    let ghost am = ivar_models(acc@);
    let xn = to_chars(x.name.as_str());
    let mut i: usize = 0;
    while i < acc.len()
        invariant
            i <= acc.len(),
            am == ivar_models(acc@),
            xn@ == x.name@,
            forall|k: int| 0 <= k < i ==> (#[trigger] am[k]).name != x.name@,
        decreases acc.len() - i,
    {
        let an = to_chars(acc[i].name.as_str());
        if chars_eq(&an, &xn) {
            assert(am[i as int].name == x.name@);
            return;
        }
        i += 1;
    }
    assert(!exists|k: int| 0 <= k < am.len() && am[k].name == x.name@);
    let mut p: usize = 0;
    while p < acc.len()
        invariant
            p <= acc.len(),
            am == ivar_models(acc@),
            xn@ == x.name@,
            forall|k: int| 0 <= k < p ==> text_lt((#[trigger] am[k]).name, x.name@),
        ensures
            p <= acc.len(),
            forall|k: int| 0 <= k < p ==> text_lt((#[trigger] am[k]).name, x.name@),
            p < acc.len() ==> !text_lt(am[p as int].name, x.name@),
        decreases acc.len() - p,
    {
        let an = to_chars(acc[p].name.as_str());
        if !chars_lt(&an, &xn) {
            break;
        }
        p += 1;
    }
    proof {
        if p < acc.len() {
            lemma_first_where_is(
                am.len() as int,
                |k: int| !text_lt(am[k].name, x.name@),
                Some(p as int),
            );
        } else {
            lemma_first_where_is(am.len() as int, |k: int| !text_lt(am[k].name, x.name@), None);
        }
    }
    let ghost xm = x@;
    acc.insert(p, x);
    assert(ivar_models(acc@) =~= am.insert(p as int, xm));
}

/// The reads sorted by name, each name once, as [`sorted_ivars`] says.
fn sort_ivars(reads: &Vec<IvarAccess>) -> (r: Vec<IvarAccess>)
    ensures
        ivar_models(r@) == sorted_ivars(ivar_models(reads@)),
{
    let ghost rm = ivar_models(reads@);
    let mut out: Vec<IvarAccess> = Vec::new();
    let mut i: usize = 0;
    assert(ivar_models(out@) =~= sorted_ivars(rm.take(0)));
    while i < reads.len()
        invariant
            i <= reads.len(),
            rm == ivar_models(reads@),
            ivar_models(out@) == sorted_ivars(rm.take(i as int)),
        decreases reads.len() - i,
    {
        assert(rm.take(i + 1).drop_last() == rm.take(i as int));
        let x = IvarAccess { name: reads[i].name.clone(), ty: copy_type(&reads[i].ty) };
        assert(x@ == rm.take(i + 1).last());
        insert_ivar_exec(&mut out, x);
        i += 1;
    }
    assert(rm.take(reads.len() as int) == rm);
    out
}

/// The exception classes a block tests for, as [`block_rescues`] says.
fn block_rescues_exec(instrs: &Vec<CfgInstruction>, out: &mut Vec<String>)
    ensures
        texts(final(out)@) == texts(old(out)@) + block_rescues(
            crate::cfg_text::instr_models(instrs@),
        ),
{
    let ghost im = crate::cfg_text::instr_models(instrs@);
    let ghost start = texts(out@);
    let mut j: usize = 0;
    assert(im.take(0) =~= Seq::<InstrModel>::empty());
    while j < instrs.len()
        invariant
            j <= instrs.len(),
            im == crate::cfg_text::instr_models(instrs@),
            texts(out@) == start + block_rescues(im.take(j as int)),
        decreases instrs.len() - j,
    {
        assert(im.take(j + 1).drop_last() == im.take(j as int));
        assert(im.take(j + 1).last() == instrs@[j as int]@);
        proof {
            reveal_strlit("===");
            reveal_strlit("T.class_of(");
            reveal_strlit(")");
            assert(")"@ == seq![')']);
        }
        let ghost before = texts(out@);
        match &instrs[j] {
            CfgInstruction::MethodCall { receiver, method_name, .. } => {
                if crate::text::str_eq(method_name.as_str(), "===") {
                    let rt = to_chars(receiver.ty.as_str());
                    match strip_prefix_str(&rt, "T.class_of(") {
                        Some(rest) => match strip_suffix_str(&rest, ")") {
                            Some(inner) => {
                                out.push(string_from_chars(&inner));
                            },
                            None => {},
                        },
                        None => {},
                    }
                }
            },
            _ => {},
        }
        assert(texts(out@) =~= before + instr_rescue(instrs@[j as int]@));
        j += 1;
    }
    assert(im.take(instrs.len() as int) == im);
}

/// The exception classes tested in blocks that end in a conditional
/// branch, as [`rescues_of`] says.
fn rescues_exec(blocks: &Vec<CfgBasicBlock>) -> (r: Vec<String>)
    ensures
        texts(r@) == rescues_of(crate::cfg_text::block_models(blocks@)),
{
    let ghost bm = crate::cfg_text::block_models(blocks@);
    let mut out: Vec<String> = Vec::new();
    let mut b: usize = 0;
    assert(texts(out@) =~= rescues_of(bm.take(0)));
    while b < blocks.len()
        invariant
            b <= blocks.len(),
            bm == crate::cfg_text::block_models(blocks@),
            texts(out@) == rescues_of(bm.take(b as int)),
        decreases blocks.len() - b,
    {
        assert(bm.take(b + 1).drop_last() == bm.take(b as int));
        assert(bm.take(b + 1).last() == blocks@[b as int]@);
        let ghost before = texts(out@);
        if let CfgTerminator::Conditional { .. } = &blocks[b].terminator {
            block_rescues_exec(&blocks[b].instructions, &mut out);
        }
        assert(texts(out@) =~= rescues_of(bm.take(b + 1)));
        b += 1;
    }
    assert(bm.take(blocks.len() as int) == bm);
    out
}

/// Whether a method uses its block, as [`uses_block`] says.
fn uses_block_exec(blocks: &Vec<CfgBasicBlock>) -> (r: bool)
    ensures
        r == uses_block(crate::cfg_text::block_models(blocks@)),
{
    let ghost bm = crate::cfg_text::block_models(blocks@);
    let mut b: usize = 0;
    while b < blocks.len()
        invariant
            b <= blocks.len(),
            bm == crate::cfg_text::block_models(blocks@),
            forall|k: int|
                0 <= k < b ==> !((#[trigger] bm[k]).terminator is BlockCall || loads_block_values(
                    bm[k].instructions,
                )),
        decreases blocks.len() - b,
    {
        let block = &blocks[b];
        assert(bm[b as int] == block@);
        if let CfgTerminator::BlockCall { .. } = &block.terminator {
            assert(bm[b as int].terminator is BlockCall);
            return true;
        }
        let ghost im = block@.instructions;
        let mut j: usize = 0;
        while j < block.instructions.len()
            invariant
                b < blocks.len(),
                block == &blocks[b as int],
                bm == crate::cfg_text::block_models(blocks@),
                im == bm[b as int].instructions,
                j <= block.instructions.len(),
                im == crate::cfg_text::instr_models(block.instructions@),
                forall|i: int|
                    0 <= i < j ==> !((#[trigger] im[i]) is LoadSelf || im[i] is LoadYieldParams),
            decreases block.instructions.len() - j,
        {
            match &block.instructions[j] {
                CfgInstruction::LoadSelf { .. } => {
                    assert(im[j as int] is LoadSelf);
                    assert(loads_block_values(bm[b as int].instructions));
                    return true;
                },
                CfgInstruction::LoadYieldParams { .. } => {
                    assert(im[j as int] is LoadYieldParams);
                    assert(loads_block_values(bm[b as int].instructions));
                    return true;
                },
                _ => {},
            }
            assert(!(im[j as int] is LoadSelf || im[j as int] is LoadYieldParams));
            j += 1;
        }
        b += 1;
    }
    false
}


/// Whether `T.untyped` is one of `v`.
fn has_untyped(v: &Vec<SorbetType>) -> (r: bool)
    ensures
        r == type_views(v@).contains(TypeModel::Untyped),
{
    let mut i: usize = 0;
    while i < v.len()
        invariant
            i <= v.len(),
            forall|j: int| 0 <= j < i ==> v@[j]@ != TypeModel::Untyped,
        decreases v.len() - i,
    {
        if let SorbetType::Untyped = &v[i] {
            assert(type_views(v@)[i as int] == TypeModel::Untyped);
            return true;
        }
        i += 1;
    }
    assert forall|j: int| 0 <= j < v.len() implies type_views(v@)[j] != TypeModel::Untyped by {
        assert(v@[j]@ != TypeModel::Untyped);
    }
    false
}

/// The return type from the types returned, as [`combine_returns`] says.
fn combine_returns_exec(ret_types: Vec<SorbetType>) -> (r: Option<SorbetType>)
    ensures
        match r {
            Some(t) => combine_returns(type_views(ret_types@)) == Some(t@),
            None => combine_returns(type_views(ret_types@)) is None,
        },
{
    let mut ret_types = ret_types;
    let ghost tv = type_views(ret_types@);
    if ret_types.len() == 0 {
        None
    } else if has_untyped(&ret_types) {
        Some(SorbetType::Untyped)
    } else if ret_types.len() == 1 {
        let t = ret_types.remove(0);
        assert(t@ == tv[0]);
        Some(t)
    } else {
        let u = SorbetType::Union(ret_types);
        proof {
            let sv = match u@ {
                TypeModel::Union(sv) => sv,
                _ => tv,
            };
            assert(u@ is Union);
            assert(sv.len() == tv.len());
            assert forall|k: int| 0 <= k < sv.len() implies sv[k] == tv[k] by {}
            assert(sv =~= tv);
        }
        Some(u)
    }
}

/// What a cfg-text method tells, as [`spec_method_info`] says.
fn extract_method_info(cfg_method: &CfgMethod) -> (r: Option<MethodInfo>)
    ensures
        match r {
            Some(i) => spec_method_info(cfg_method@) == Some(i@),
            None => spec_method_info(cfg_method@) is None,
        },
{
    let fqn = match parse_method_fqn(cfg_method.raw_name.as_str()) {
        Some(f) => f,
        None => return None,
    };
    let ghost m = cfg_method@;
    let ghost st = instr_stream(m.blocks);
    let c = collect(&cfg_method.blocks);
    let Collected { args, present, calls, ivars, ret_types } = c;
    let mut args = args;
    let mut calls = calls;
    let ghost decls = arg_decls(st);
    let ghost pres = present_args(st);
    let mut i: usize = 0;
    while i < args.len()
        invariant
            i <= args.len(),
            decl_view(args@) == decls,
            views(present@) == pres,
            forall|k: int|
                0 <= k < i ==> (#[trigger] args@[k]).is_optional == pres.contains(args@[k].name@),
        decreases args.len() - i,
    {
        let n = to_chars(args[i].name.as_str());
        let o = contains_chars(&present, &n);
        let ghost before = args@;
        args[i].is_optional = o;
        assert(decl_view(args@) =~= decl_view(before));
        assert forall|k: int| 0 <= k < i + 1 implies (#[trigger] args@[k]).is_optional
            == pres.contains(args@[k].name@) by {
            if k < i {
                assert(args@[k] == before[k]);
            }
        }
        i += 1;
    }
    assert(arg_models(args@) =~= Seq::new(
        decls.len(),
        |i: int| ArgModel { name: decls[i].0, ty: decls[i].1, is_optional: pres.contains(decls[i].0) },
    )) by {
        assert forall|k: int| 0 <= k < decls.len() implies arg_models(args@)[k] == (ArgModel {
            name: decls[k].0,
            ty: decls[k].1,
            is_optional: pres.contains(decls[k].0),
        }) by {
            assert(decl_view(args@)[k] == decls[k]);
        }
    }
    let ivars = sort_ivars(&ivars);
    let basic_blocks = build_basic_blocks(cfg_method);
    let preds = build_predecessor_map(&basic_blocks);
    let ghost bbs = spec_basic_blocks(m.blocks);
    let ghost rc = raw_calls(st);
    let mut j: usize = 0;
    while j < calls.len()
        invariant
            j <= calls.len(),
            raw_call_view(calls@) == rc,
            block_views(basic_blocks@) == bbs,
            forall|t: usize| #[trigger] pred_list(preds@, t) == preds_of(bbs, t),
            forall|k: int|
                0 <= k < j ==> cond_models((#[trigger] calls@[k]).conditions@) == spec_conditions(
                    bbs,
                    calls@[k].bb_id,
                ),
        decreases calls.len() - j,
    {
        let conds = compute_conditions(calls[j].bb_id, &basic_blocks, &preds);
        let ghost before = calls@;
        calls[j].conditions = conds;
        assert(raw_call_view(calls@) =~= raw_call_view(before));
        assert forall|k: int| 0 <= k < j + 1 implies cond_models((#[trigger] calls@[k]).conditions@)
            == spec_conditions(bbs, calls@[k].bb_id) by {
            if k < j {
                assert(calls@[k] == before[k]);
            }
        }
        j += 1;
    }
    assert(call_models(calls@) =~= Seq::new(
        rc.len(),
        |i: int|
            CallModel {
                receiver_type: rc[i].0,
                method_name: rc[i].1,
                return_type: rc[i].2,
                bb_id: rc[i].3,
                conditions: spec_conditions(bbs, rc[i].3),
            },
    )) by {
        assert forall|k: int| 0 <= k < rc.len() implies call_models(calls@)[k] == (CallModel {
            receiver_type: rc[k].0,
            method_name: rc[k].1,
            return_type: rc[k].2,
            bb_id: rc[k].3,
            conditions: spec_conditions(bbs, rc[k].3),
        }) by {
            assert(raw_call_view(calls@)[k] == rc[k]);
        }
    }
    let return_type = combine_returns_exec(ret_types);
    let rescues = rescues_exec(&cfg_method.blocks);
    let uses = uses_block_exec(&cfg_method.blocks);
    let info = MethodInfo {
        fqn,
        file_path: None,
        line: None,
        arguments: args,
        return_type,
        calls,
        ivars,
        rescues,
        uses_block: uses,
        basic_blocks,
    };
    assert(info@ == spec_method_info(m).unwrap());
    Some(info)
}

// ---------------------------------------------------------------------------
// The project
// ---------------------------------------------------------------------------

/// `p` with the method a cfg-text method describes, if any, added: at the
/// end of the methods, and to the method list of its class when the class
/// is in the table.
pub open spec fn add_method(p: ProjectModel, m: MethodModel) -> ProjectModel {
    match spec_method_info(m) {
        None => p,
        Some(info) => ProjectModel {
            classes: match class_index(p.classes, info.fqn.class_fqn) {
                Some(i) => p.classes.update(
                    i,
                    ClassModel {
                        method_fqns: p.classes[i].method_fqns.push(info.fqn),
                        ..p.classes[i]
                    },
                ),
                None => p.classes,
            },
            methods: p.methods.push(info),
        },
    }
}

/// `p` with the methods of the cfg-text methods added, in order.
pub open spec fn add_methods(p: ProjectModel, ms: Seq<MethodModel>) -> ProjectModel
    decreases ms.len(),
{
    if ms.len() == 0 {
        p
    } else {
        add_method(add_methods(p, ms.drop_last()), ms.last())
    }
}

/// The project the three outputs describe: the classes and modules of the
/// symbol table (with the superclasses and mixins it names), placed in
/// files by the defining references of the autogen output, and the methods
/// of the cfg-text output.
pub open spec fn spec_build(ms: Seq<MethodModel>, root: RawSymbol, files: Seq<FileModel>) -> ProjectModel {
    let ids = id_map_into(root, Seq::empty(), Map::empty());
    let cs = apply_files(classes_into(root, Seq::empty(), ids, Seq::empty()), files);
    add_methods(ProjectModel { classes: cs, methods: seq![] }, ms)
}

/// Joins the cfg-text methods, the symbol table and the autogen files into
/// a project, as [`spec_build`] says.
pub fn build(cfg_methods: Vec<CfgMethod>, symbol_tree: SymbolTree, autogen_files: Vec<AutogenFile>) -> (p:
    Project)
    ensures
        p@ == spec_build(method_models(cfg_methods@), symbol_tree.root, file_models(autogen_files@)),
{
    let mut project = Project::new();
    let id_map = symbol_tree.build_id_map();
    let empty: Vec<char> = Vec::new();
    build_classes_from_symbols(&symbol_tree.root, &empty, &id_map, &mut project.classes);
    apply_autogen(&autogen_files, &mut project.classes);
    let ghost ms = method_models(cfg_methods@);
    let ghost p0 = project@;
    assert(p0.methods =~= Seq::<InfoModel>::empty());
    let mut i: usize = 0;
    while i < cfg_methods.len()
        invariant
            i <= cfg_methods.len(),
            ms == method_models(cfg_methods@),
            project@ == add_methods(p0, ms.take(i as int)),
        decreases cfg_methods.len() - i,
    {
        assert(ms.take(i + 1).drop_last() == ms.take(i as int));
        assert(ms.take(i + 1).last() == cfg_methods@[i as int]@);
        match extract_method_info(&cfg_methods[i]) {
            Some(info) => {
                proof {
                    lemma_class_index(project@.classes, info.fqn@.class_fqn);
                }
                match project.classes.index_of(info.fqn.class_fqn.as_str()) {
                    Some(k) => {
                        project.classes.push_method(k, info.fqn.copy());
                    },
                    None => {},
                }
                let ghost before = project@.methods;
                project.methods.push(info);
                assert(project@.methods =~= before.push(info@));
            },
            None => {},
        }
        i += 1;
    }
    assert(ms.take(cfg_methods.len() as int) == ms);
    project
}


// ---------------------------------------------------------------------------
// Laws
// ---------------------------------------------------------------------------

/// No text comes before itself.
pub proof fn lemma_text_lt_irreflexive(a: Seq<char>)
    ensures
        !text_lt(a, a),
    decreases a.len(),
{
    if a.len() > 0 {
        lemma_text_lt_irreflexive(a.drop_first());
    }
}

/// The order of texts is transitive.
pub proof fn lemma_text_lt_transitive(a: Seq<char>, b: Seq<char>, c: Seq<char>)
    requires
        text_lt(a, b),
        text_lt(b, c),
    ensures
        text_lt(a, c),
    decreases a.len(),
{
    if a.len() > 0 && b.len() > 0 && c.len() > 0 {
        if a[0] == b[0] && b[0] == c[0] {
            lemma_text_lt_transitive(a.drop_first(), b.drop_first(), c.drop_first());
        }
    }
}

/// Two different texts are ordered one way or the other.
pub proof fn lemma_text_lt_total(a: Seq<char>, b: Seq<char>)
    requires
        a != b,
    ensures
        text_lt(a, b) || text_lt(b, a),
    decreases a.len(),
{
    if a.len() > 0 && b.len() > 0 && a[0] == b[0] {
        if a.drop_first() == b.drop_first() {
            assert(a =~= seq![a[0]] + a.drop_first());
            assert(b =~= seq![b[0]] + b.drop_first());
        }
        lemma_text_lt_total(a.drop_first(), b.drop_first());
    } else if a.len() > 0 && b.len() > 0 {
        assert((a[0] as int) != (b[0] as int));
    } else if a.len() == 0 && b.len() == 0 {
        assert(a =~= b);
    }
}

/// Reads sorted strictly by name.
pub open spec fn strictly_sorted(s: Seq<IvarModel>) -> bool {
    forall|i: int, j: int| 0 <= i < j < s.len() ==> text_lt(s[i].name, s[j].name)
}

/// `x` is the first read of its name.
pub open spec fn first_of_name(reads: Seq<IvarModel>, x: IvarModel) -> bool {
    exists|i: int|
        0 <= i < reads.len() && reads[i] == x && forall|j: int|
            0 <= j < i ==> reads[j].name != x.name
}

/// Adding a read of a new name to reads sorted strictly by name puts it at
/// its place and keeps them sorted.
proof fn lemma_insert_sorted(acc: Seq<IvarModel>, x: IvarModel)
    requires
        strictly_sorted(acc),
        !exists|k: int| 0 <= k < acc.len() && acc[k].name == x.name,
    ensures
        0 <= insert_position(acc, x.name) <= acc.len(),
        insert_ivar(acc, x) == acc.insert(insert_position(acc, x.name), x),
        strictly_sorted(insert_ivar(acc, x)),
{
    let p = insert_position(acc, x.name);
    let pr = |k: int| !text_lt(acc[k].name, x.name);
    lemma_first_where(acc.len() as int, pr, 0);
    assert forall|k: int| 0 <= k < p implies text_lt(acc[k].name, x.name) by {
        assert(!pr(k));
    }
    if p < acc.len() {
        assert(!text_lt(acc[p].name, x.name));
        assert(acc[p].name != x.name);
        lemma_text_lt_total(acc[p].name, x.name);
    }
    let r = acc.insert(p, x);
    assert forall|i: int, j: int| 0 <= i < j < r.len() implies text_lt(r[i].name, r[j].name) by {
        if j < p {
            assert(r[i] == acc[i] && r[j] == acc[j]);
        } else if j == p {
            assert(r[i] == acc[i]);
        } else if i == p {
            assert(r[j] == acc[j - 1]);
            if j - 1 > p {
                lemma_text_lt_transitive(x.name, acc[p].name, acc[j - 1].name);
            }
        } else if i < p {
            assert(r[i] == acc[i] && r[j] == acc[j - 1]);
        } else {
            assert(r[i] == acc[i - 1] && r[j] == acc[j - 1]);
        }
    }
}

/// Every name read is among the names of `r`.
pub open spec fn covers_names(reads: Seq<IvarModel>, r: Seq<IvarModel>) -> bool {
    forall|i: int|
        0 <= i < reads.len() ==> exists|k: int|
            0 <= k < r.len() && r[k].name == (#[trigger] reads[i]).name
}

/// The first read of a name stays the first when a read is added.
proof fn lemma_first_kept(pre: Seq<IvarModel>, x: IvarModel, y: IvarModel)
    requires
        first_of_name(pre, y),
    ensures
        first_of_name(pre.push(x), y),
{
    let reads = pre.push(x);
    let i = choose|i: int|
        0 <= i < pre.len() && pre[i] == y && forall|j: int| 0 <= j < i ==> pre[j].name != y.name;
    assert(reads[i] == pre[i]);
    assert forall|j: int| 0 <= j < i implies reads[j].name != y.name by {
        assert(reads[j] == pre[j]);
    }
}

/// A read of a name not seen before is the first of its name.
proof fn lemma_first_new(pre: Seq<IvarModel>, acc: Seq<IvarModel>, x: IvarModel)
    requires
        covers_names(pre, acc),
        !exists|k: int| 0 <= k < acc.len() && acc[k].name == x.name,
    ensures
        first_of_name(pre.push(x), x),
{
    let reads = pre.push(x);
    assert(reads[reads.len() - 1] == x);
    assert forall|j: int| 0 <= j < reads.len() - 1 implies reads[j].name != x.name by {
        assert(reads[j] == pre[j]);
        if reads[j].name == x.name {
            let kk = choose|kk: int| 0 <= kk < acc.len() && acc[kk].name == (#[trigger] pre[j]).name;
            assert(acc[kk].name == x.name);
        }
    }
}

/// What the sorted reads satisfy.
pub open spec fn sorted_reads_ok(reads: Seq<IvarModel>, r: Seq<IvarModel>) -> bool {
    &&& strictly_sorted(r)
    &&& forall|k: int| 0 <= k < r.len() ==> first_of_name(reads, #[trigger] r[k])
    &&& covers_names(reads, r)
}

/// A read of a name already there changes nothing.
#[verifier::spinoff_prover]
proof fn lemma_step_known(pre: Seq<IvarModel>, acc: Seq<IvarModel>, x: IvarModel)
    requires
        sorted_reads_ok(pre, acc),
        exists|k: int| 0 <= k < acc.len() && acc[k].name == x.name,
    ensures
        sorted_reads_ok(pre.push(x), insert_ivar(acc, x)),
{
    let reads = pre.push(x);
    let r = insert_ivar(acc, x);
    assert(r == acc);
    assert forall|k: int| 0 <= k < r.len() implies first_of_name(reads, #[trigger] r[k]) by {
        lemma_first_kept(pre, x, acc[k]);
    }
    let kx = choose|k: int| 0 <= k < acc.len() && acc[k].name == x.name;
    assert forall|i: int| 0 <= i < reads.len() implies exists|k: int|
        0 <= k < r.len() && r[k].name == (#[trigger] reads[i]).name by {
        if i < pre.len() {
            assert(pre[i] == reads[i]);
            let kk = choose|kk: int| 0 <= kk < acc.len() && acc[kk].name == (#[trigger] pre[i]).name;
            assert(r[kk].name == reads[i].name);
        } else {
            assert(reads[i] == x);
            assert(r[kx].name == reads[i].name);
        }
    }
}

/// A read of a new name is added at its place.
#[verifier::spinoff_prover]
proof fn lemma_step_new(pre: Seq<IvarModel>, acc: Seq<IvarModel>, x: IvarModel)
    requires
        sorted_reads_ok(pre, acc),
        !exists|k: int| 0 <= k < acc.len() && acc[k].name == x.name,
    ensures
        sorted_reads_ok(pre.push(x), insert_ivar(acc, x)),
{
    let reads = pre.push(x);
    let p = insert_position(acc, x.name);
    lemma_insert_sorted(acc, x);
    let r = insert_ivar(acc, x);
    assert(r == acc.insert(p, x));
    assert forall|k: int| 0 <= k < r.len() implies first_of_name(reads, #[trigger] r[k]) by {
        if k == p {
            lemma_first_new(pre, acc, x);
        } else if k < p {
            assert(r[k] == acc[k]);
            lemma_first_kept(pre, x, acc[k]);
        } else {
            assert(r[k] == acc[k - 1]);
            lemma_first_kept(pre, x, acc[k - 1]);
        }
    }
    assert forall|i: int| 0 <= i < reads.len() implies exists|k: int|
        0 <= k < r.len() && r[k].name == (#[trigger] reads[i]).name by {
        if i < pre.len() {
            assert(pre[i] == reads[i]);
            let kk = choose|kk: int| 0 <= kk < acc.len() && acc[kk].name == (#[trigger] pre[i]).name;
            if kk < p {
                assert(r[kk] == acc[kk]);
            } else {
                assert(r[kk + 1] == acc[kk]);
            }
        } else {
            assert(r[p] == x);
        }
    }
}

/// The instance variables of a method are sorted strictly by name, hold
/// every name read, and give for each name its first read.
pub proof fn lemma_sorted_ivars(reads: Seq<IvarModel>)
    ensures
        strictly_sorted(sorted_ivars(reads)),
        forall|k: int|
            0 <= k < sorted_ivars(reads).len() ==> first_of_name(reads, #[trigger] sorted_ivars(reads)[k]),
        covers_names(reads, sorted_ivars(reads)),
    decreases reads.len(),
{
    if reads.len() > 0 {
        let pre = reads.drop_last();
        let x = reads.last();
        assert(reads == pre.push(x));
        lemma_sorted_ivars(pre);
        let acc = sorted_ivars(pre);
        if exists|k: int| 0 <= k < acc.len() && acc[k].name == x.name {
            lemma_step_known(pre, acc, x);
        } else {
            lemma_step_new(pre, acc, x);
        }
    }
}


/// Two tables name the same classes at the same places.
pub open spec fn same_names(a: Seq<ClassModel>, b: Seq<ClassModel>) -> bool {
    a.len() == b.len() && forall|i: int| 0 <= i < a.len() ==> (#[trigger] a[i]).fqn == b[i].fqn
}

/// Tables with the same names find a name at the same place.
proof fn lemma_same_names_index(a: Seq<ClassModel>, b: Seq<ClassModel>, k: Seq<char>)
    requires
        same_names(a, b),
    ensures
        class_index(a, k) == class_index(b, k),
{
    lemma_class_index(a, k);
    lemma_class_index(b, k);
    match class_index(a, k) {
        Some(i) => {
            assert(b[i].fqn == k);
            assert forall|j: int| 0 <= j < i implies b[j].fqn != k by {
                assert(a[j].fqn == b[j].fqn);
            }
            lemma_first_where_is(b.len() as int, |j: int| b[j].fqn == k, Some(i));
        },
        None => {
            assert forall|j: int| 0 <= j < b.len() implies b[j].fqn != k by {
                assert(a[j].fqn == b[j].fqn);
            }
            lemma_first_where_is(b.len() as int, |j: int| b[j].fqn == k, None);
        },
    }
}

/// Autogen references keep the names of the classes.
proof fn lemma_apply_refs_names(cs: Seq<ClassModel>, path: Seq<char>, refs: Seq<RefModel>)
    ensures
        same_names(cs, apply_refs(cs, path, refs)),
    decreases refs.len(),
{
    if refs.len() > 0 {
        lemma_apply_refs_names(cs, path, refs.drop_last());
        let mid = apply_refs(cs, path, refs.drop_last());
        let r = refs.last();
        if r.is_defining_ref {
            let fqn = join(r.resolved, "::"@);
            lemma_class_index(mid, fqn);
        }
        assert(same_names(mid, apply_ref(mid, path, r)));
    }
}

/// Autogen files keep the names of the classes.
proof fn lemma_apply_files_names(cs: Seq<ClassModel>, files: Seq<FileModel>)
    ensures
        same_names(cs, apply_files(cs, files)),
    decreases files.len(),
{
    if files.len() > 0 {
        lemma_apply_files_names(cs, files.drop_last());
        let mid = apply_files(cs, files.drop_last());
        lemma_apply_refs_names(mid, files.last().path, files.last().refs);
    }
}

/// Adding methods keeps the names of the classes.
proof fn lemma_add_methods_names(p: ProjectModel, ms: Seq<MethodModel>)
    ensures
        same_names(p.classes, add_methods(p, ms).classes),
    decreases ms.len(),
{
    if ms.len() > 0 {
        lemma_add_methods_names(p, ms.drop_last());
        let mid = add_methods(p, ms.drop_last());
        match spec_method_info(ms.last()) {
            Some(info) => {
                lemma_class_index(mid.classes, info.fqn.class_fqn);
            },
            None => {},
        }
        assert(same_names(mid.classes, add_method(mid, ms.last()).classes));
    }
}

/// The classes of a symbol and its descendants are stored once per name.
proof fn lemma_classes_into_unique(
    sym: RawSymbol,
    parent: Seq<char>,
    m: Map<u64, Seq<char>>,
    cs: Seq<ClassModel>,
)
    requires
        crate::model::unique_names(cs),
    ensures
        crate::model::unique_names(classes_into(sym, parent, m, cs)),
    decreases sym, 0int,
{
    let name = sym.name.name@;
    if sym.kind@ == class_kind() && name != root_name() {
        let fqn = symbol_fqn(name, parent);
        let c = symbol_class(sym, fqn, m);
        crate::model::lemma_table_insert(cs, c, fqn);
        let cs1 = table_insert(cs, c);
        match sym.children {
            Some(ch) => lemma_children_unique(ch@, 0, fqn, m, cs1),
            None => {},
        }
    } else {
        let cur = if name == root_name() {
            Seq::empty()
        } else {
            parent
        };
        match sym.children {
            Some(ch) => lemma_children_unique(ch@, 0, cur, m, cs),
            None => {},
        }
    }
}

/// The classes of children are stored once per name.
proof fn lemma_children_unique(
    ch: Seq<RawSymbol>,
    i: int,
    parent: Seq<char>,
    m: Map<u64, Seq<char>>,
    cs: Seq<ClassModel>,
)
    requires
        crate::model::unique_names(cs),
    ensures
        crate::model::unique_names(children_classes(ch, i, parent, m, cs)),
    decreases ch, ch.len() - i,
{
    if 0 <= i < ch.len() {
        lemma_classes_into_unique(ch[i], parent, m, cs);
        lemma_children_unique(ch, i + 1, parent, m, classes_into(ch[i], parent, m, cs));
    }
}

/// A project built from the three outputs holds one class per name.
pub proof fn lemma_build_unique_names(ms: Seq<MethodModel>, root: RawSymbol, files: Seq<FileModel>)
    ensures
        crate::model::unique_names(spec_build(ms, root, files).classes),
{
    let ids = id_map_into(root, Seq::empty(), Map::empty());
    let cs0 = classes_into(root, Seq::empty(), ids, Seq::empty());
    lemma_classes_into_unique(root, Seq::empty(), ids, Seq::empty());
    let cs = apply_files(cs0, files);
    lemma_apply_files_names(cs0, files);
    let p = ProjectModel { classes: cs, methods: seq![] };
    lemma_add_methods_names(p, ms);
    let out = add_methods(p, ms).classes;
    assert forall|i: int, j: int| 0 <= i < j < out.len() implies out[i].fqn != out[j].fqn by {
        assert(out[i].fqn == cs[i].fqn && cs[i].fqn == cs0[i].fqn);
        assert(out[j].fqn == cs[j].fqn && cs[j].fqn == cs0[j].fqn);
    }
}

/// The class named `k` is in the table with a file that is not an RBI
/// file.
pub open spec fn in_ruby_file(cs: Seq<ClassModel>, k: Seq<char>) -> bool {
    match lookup(cs, k) {
        Some(c) => match c.file_path {
            Some(p) => !spec_is_rbi_path(p),
            None => false,
        },
        None => false,
    }
}

/// One autogen reference never moves a class out of a Ruby file into an
/// RBI file.
proof fn lemma_ruby_file_kept_ref(cs: Seq<ClassModel>, path: Seq<char>, r: RefModel, k: Seq<char>)
    requires
        in_ruby_file(cs, k),
    ensures
        in_ruby_file(apply_ref(cs, path, r), k),
{
    let out = apply_ref(cs, path, r);
    lemma_class_index(cs, k);
    if r.is_defining_ref {
        let fqn = join(r.resolved, "::"@);
        lemma_class_index(cs, fqn);
        match class_index(cs, fqn) {
            Some(i) => {
                assert(same_names(cs, out));
                lemma_same_names_index(cs, out, k);
                let j = class_index(cs, k).unwrap();
                if i == j {
                    let c = cs[i];
                    let ex = spec_path_match_score(fqn, c.file_path.unwrap());
                    assert(ex >= 1);
                    if spec_path_match_score(fqn, path) > ex {
                        assert(!spec_is_rbi_path(path));
                    }
                }
            },
            None => {},
        }
    }
}

/// The references of one file never move a class out of a Ruby file into
/// an RBI file.
proof fn lemma_ruby_file_kept_refs(cs: Seq<ClassModel>, path: Seq<char>, refs: Seq<RefModel>, k: Seq<char>)
    requires
        in_ruby_file(cs, k),
    ensures
        in_ruby_file(apply_refs(cs, path, refs), k),
    decreases refs.len(),
{
    if refs.len() > 0 {
        lemma_ruby_file_kept_refs(cs, path, refs.drop_last(), k);
        lemma_ruby_file_kept_ref(apply_refs(cs, path, refs.drop_last()), path, refs.last(), k);
    }
}

/// Autogen references never move a class that is in a Ruby file into an
/// RBI file.
pub proof fn lemma_ruby_file_kept(cs: Seq<ClassModel>, files: Seq<FileModel>, k: Seq<char>)
    requires
        in_ruby_file(cs, k),
    ensures
        in_ruby_file(apply_files(cs, files), k),
    decreases files.len(),
{
    if files.len() > 0 {
        lemma_ruby_file_kept(cs, files.drop_last(), k);
        let mid = apply_files(cs, files.drop_last());
        lemma_ruby_file_kept_refs(mid, files.last().path, files.last().refs, k);
    }
}


/// The cfg-text header name of an instance method, `::Class#name`, reads
/// back as `Class#name` when the class name has no `#` and does not end
/// with `>`, and the name mentions neither `<root>` nor `<static-init>`.
pub proof fn lemma_instance_name_roundtrip(class: Seq<char>, name: Seq<char>)
    requires
        !class.contains('#'),
        !(class.len() > 0 && class.last() == '>'),
        !spec_contains(class + seq!['#'] + name, "<root>"@),
        !spec_contains(class + seq!['#'] + name, "<static-init>"@),
    ensures
        spec_parse_method_fqn("::"@ + class + seq!['#'] + name) == Some(
            FqnModel { class_fqn: class, method_name: name, kind: MethodKind::Instance },
        ),
{
    reveal_strlit("::");
    let raw = "::"@ + class + seq!['#'] + name;
    let body = class + seq!['#'] + name;
    assert(raw.subrange(0, 2) =~= "::"@);
    assert(raw.skip(2) =~= body);
    let k = class.len() as int;
    assert(body.subrange(k, k + 1) =~= seq!['#']);
    assert forall|j: int| 0 <= j < k implies !crate::text::occurs_at(body, seq!['#'], j) by {
        assert(body.subrange(j, j + 1)[0] == class[j]);
    }
    crate::text::lemma_find_from_first(body, seq!['#'], 0, k);
    assert(body.take(k) =~= class);
    assert(body.skip(k + 1) =~= name);
    if has_suffix(class, seq!['>']) {
        assert(class.subrange(class.len() - 1, class.len() as int)[0] == class.last());
    }
}


/// Every method is listed by its class, when its class is in the table.
pub open spec fn methods_listed(p: ProjectModel) -> bool {
    forall|k: int|
        0 <= k < p.methods.len() ==> match lookup(p.classes, (#[trigger] p.methods[k]).fqn.class_fqn) {
            Some(c) => c.method_fqns.contains(p.methods[k].fqn),
            None => true,
        }
}

/// Adding one method keeps every method listed by its class.
proof fn lemma_add_method_listed(p: ProjectModel, m: MethodModel)
    requires
        methods_listed(p),
    ensures
        methods_listed(add_method(p, m)),
{
    let q = add_method(p, m);
    match spec_method_info(m) {
        None => {},
        Some(info) => {
            lemma_class_index(p.classes, info.fqn.class_fqn);
            assert(same_names(p.classes, q.classes));
            assert forall|k: int| 0 <= k < q.methods.len() implies match lookup(
                q.classes,
                (#[trigger] q.methods[k]).fqn.class_fqn,
            ) {
                Some(c) => c.method_fqns.contains(q.methods[k].fqn),
                None => true,
            } by {
                let x = q.methods[k];
                lemma_same_names_index(p.classes, q.classes, x.fqn.class_fqn);
                lemma_class_index(p.classes, x.fqn.class_fqn);
                match class_index(p.classes, x.fqn.class_fqn) {
                    Some(j) => {
                        match class_index(p.classes, info.fqn.class_fqn) {
                            Some(i) => {
                                if i == j {
                                    let old_list = p.classes[i].method_fqns;
                                    let new_list = old_list.push(info.fqn);
                                    assert(q.classes[i].method_fqns == new_list);
                                    if k < p.methods.len() {
                                        assert(p.methods[k] == x);
                                        let w = choose|w: int|
                                            0 <= w < old_list.len() && old_list[w] == x.fqn;
                                        assert(new_list[w] == x.fqn);
                                    } else {
                                        assert(x == info);
                                        assert(new_list[old_list.len() as int] == x.fqn);
                                    }
                                } else {
                                    assert(q.classes[j] == p.classes[j]);
                                    if k < p.methods.len() {
                                        assert(p.methods[k] == x);
                                    } else {
                                        assert(x == info);
                                    }
                                }
                            },
                            None => {
                                if k < p.methods.len() {
                                    assert(p.methods[k] == x);
                                } else {
                                    assert(x == info);
                                }
                            },
                        }
                    },
                    None => {},
                }
            }
        },
    }
}

/// Adding methods keeps every method listed by its class.
proof fn lemma_add_methods_listed(p: ProjectModel, ms: Seq<MethodModel>)
    requires
        methods_listed(p),
    ensures
        methods_listed(add_methods(p, ms)),
    decreases ms.len(),
{
    if ms.len() > 0 {
        lemma_add_methods_listed(p, ms.drop_last());
        lemma_add_method_listed(add_methods(p, ms.drop_last()), ms.last());
    }
}

/// In a project built from the three outputs, every method is listed among
/// the methods of its class, when its class is known.
pub proof fn lemma_build_methods_listed(ms: Seq<MethodModel>, root: RawSymbol, files: Seq<FileModel>)
    ensures
        methods_listed(spec_build(ms, root, files)),
{
    let ids = id_map_into(root, Seq::empty(), Map::empty());
    let cs = apply_files(classes_into(root, Seq::empty(), ids, Seq::empty()), files);
    let p = ProjectModel { classes: cs, methods: seq![] };
    lemma_add_methods_listed(p, ms);
}


/// The calls among `instrs`, in block `id`, that are not Sorbet's internal
/// methods, as method name and block number, in order.
pub open spec fn instr_call_sites(instrs: Seq<InstrModel>, id: usize) -> Seq<(Seq<char>, usize)>
    decreases instrs.len(),
{
    if instrs.len() == 0 {
        seq![]
    } else {
        let rest = instr_call_sites(instrs.drop_last(), id);
        match instrs.last() {
            InstrModel::MethodCall { receiver, method_name, .. } => if !spec_is_magic_method(
                method_name,
                receiver.ty,
            ) {
                rest.push((method_name, id))
            } else {
                rest
            },
            _ => rest,
        }
    }
}

/// The calls of the blocks, block by block, that are not Sorbet's internal
/// methods, as method name and block number.
pub open spec fn call_sites(blocks: Seq<BlockModel>) -> Seq<(Seq<char>, usize)>
    decreases blocks.len(),
{
    if blocks.len() == 0 {
        seq![]
    } else {
        call_sites(blocks.drop_last()) + instr_call_sites(blocks.last().instructions, blocks.last().id)
    }
}

/// The method name and block number of a call.
pub open spec fn site_of(c: (TypeModel, Seq<char>, TypeModel, usize)) -> (Seq<char>, usize) {
    (c.1, c.3)
}

/// The calls of two instruction streams in a row are those of the first,
/// then those of the second.
proof fn lemma_raw_calls_append(a: Seq<(usize, InstrModel)>, b: Seq<(usize, InstrModel)>)
    ensures
        raw_calls(a + b) == raw_calls(a) + raw_calls(b),
    decreases b.len(),
{
    if b.len() == 0 {
        assert(a + b =~= a);
        assert(raw_calls(a) + raw_calls(b) =~= raw_calls(a));
    } else {
        assert((a + b).drop_last() =~= a + b.drop_last());
        assert((a + b).last() == b.last());
        lemma_raw_calls_append(a, b.drop_last());
        let x = raw_calls(a);
        let y = raw_calls(b.drop_last());
        match b.last().1 {
            InstrModel::MethodCall { lhs, receiver, method_name, .. } => {
                if !spec_is_magic_method(method_name, receiver.ty) {
                    let c = (spec_parse_type(receiver.ty), method_name, spec_parse_type(lhs.ty), b.last().0);
                    assert((x + y).push(c) =~= x + y.push(c));
                }
            },
            _ => {},
        }
    }
}

/// The calls of one block's tagged instructions are its call sites.
proof fn lemma_tagged_sites(instrs: Seq<InstrModel>, id: usize)
    ensures
        raw_calls(instrs.map_values(|i: InstrModel| (id, i))).map_values(
            |c: (TypeModel, Seq<char>, TypeModel, usize)| site_of(c),
        ) == instr_call_sites(instrs, id),
    decreases instrs.len(),
{
    let t = instrs.map_values(|i: InstrModel| (id, i));
    if instrs.len() == 0 {
        assert(t =~= seq![]);
        assert(raw_calls(t).map_values(|c: (TypeModel, Seq<char>, TypeModel, usize)| site_of(c))
            =~= seq![]);
    } else {
        let d = instrs.drop_last();
        assert(t.drop_last() =~= d.map_values(|i: InstrModel| (id, i)));
        assert(t.last() == (id, instrs.last()));
        lemma_tagged_sites(d, id);
        let r = raw_calls(t.drop_last());
        match instrs.last() {
            InstrModel::MethodCall { lhs, receiver, method_name, .. } => {
                if !spec_is_magic_method(method_name, receiver.ty) {
                    let c = (spec_parse_type(receiver.ty), method_name, spec_parse_type(lhs.ty), id);
                    assert(r.push(c).map_values(|c: (TypeModel, Seq<char>, TypeModel, usize)| site_of(c))
                        =~= r.map_values(|c: (TypeModel, Seq<char>, TypeModel, usize)| site_of(c)).push(
                        (method_name, id),
                    ));
                }
            },
            _ => {},
        }
    }
}

/// The calls of the instruction stream of the blocks are their call sites.
proof fn lemma_stream_sites(blocks: Seq<BlockModel>)
    ensures
        raw_calls(instr_stream(blocks)).map_values(
            |c: (TypeModel, Seq<char>, TypeModel, usize)| site_of(c),
        ) == call_sites(blocks),
    decreases blocks.len(),
{
    if blocks.len() == 0 {
        assert(raw_calls(instr_stream(blocks)).map_values(
            |c: (TypeModel, Seq<char>, TypeModel, usize)| site_of(c),
        ) =~= seq![]);
    } else {
        let b = blocks.last();
        lemma_stream_sites(blocks.drop_last());
        lemma_raw_calls_append(instr_stream(blocks.drop_last()), tagged(b));
        lemma_tagged_sites(b.instructions, b.id);
        let x = raw_calls(instr_stream(blocks.drop_last()));
        let y = raw_calls(tagged(b));
        assert((x + y).map_values(|c: (TypeModel, Seq<char>, TypeModel, usize)| site_of(c))
            =~= x.map_values(|c: (TypeModel, Seq<char>, TypeModel, usize)| site_of(c)) + y.map_values(
            |c: (TypeModel, Seq<char>, TypeModel, usize)| site_of(c),
        ));
    }
}

/// A cfg-text method gives a method exactly when its header names one.
/// That method has no file or line yet, uses its block exactly when some
/// block makes a block call or loads `self` or yield parameters, and calls,
/// in order, each method its instructions call other than Sorbet's internal
/// ones, with the number of the block of the call.
pub proof fn lemma_method_info_shape(m: MethodModel)
    ensures
        spec_method_info(m) is None <==> spec_parse_method_fqn(m.raw_name) is None,
        spec_method_info(m) matches Some(r) ==> {
            &&& r.file_path is None
            &&& r.line is None
            &&& r.uses_block == uses_block(m.blocks)
            &&& r.calls.map_values(|c: CallModel| (c.method_name, c.bb_id)) == call_sites(m.blocks)
        },
{
    if let Some(r) = spec_method_info(m) {
        let rc = raw_calls(instr_stream(m.blocks));
        lemma_stream_sites(m.blocks);
        assert(r.calls.map_values(|c: CallModel| (c.method_name, c.bb_id)) =~= rc.map_values(
            |c: (TypeModel, Seq<char>, TypeModel, usize)| site_of(c),
        ));
    }
}


/// The methods the cfg-text methods describe, in order; those whose header
/// names no method are left out.
pub open spec fn method_infos(ms: Seq<MethodModel>) -> Seq<InfoModel>
    decreases ms.len(),
{
    if ms.len() == 0 {
        seq![]
    } else {
        match spec_method_info(ms.last()) {
            Some(info) => method_infos(ms.drop_last()).push(info),
            None => method_infos(ms.drop_last()),
        }
    }
}

/// The names of the methods among `ms` whose class is named `k`, in order.
pub open spec fn class_fqns_of(ms: Seq<InfoModel>, k: Seq<char>) -> Seq<FqnModel>
    decreases ms.len(),
{
    if ms.len() == 0 {
        seq![]
    } else if ms.last().fqn.class_fqn == k {
        class_fqns_of(ms.drop_last(), k).push(ms.last().fqn)
    } else {
        class_fqns_of(ms.drop_last(), k)
    }
}

/// The names of the classes in a table.
pub open spec fn class_names(cs: Seq<ClassModel>) -> Set<Seq<char>> {
    Set::new(|k: Seq<char>| exists|i: int| 0 <= i < cs.len() && #[trigger] cs[i].fqn == k)
}

/// The names of the classes and modules of `sym` and its descendants: a
/// class is named by its parent's name, `::`, and its own name, and the
/// root adds no name.
pub open spec fn symbol_names(sym: RawSymbol, parent: Seq<char>) -> Set<Seq<char>>
    decreases sym, 0int,
{
    let name = sym.name.name@;
    if sym.kind@ == class_kind() && name != root_name() {
        let fqn = symbol_fqn(name, parent);
        match sym.children {
            Some(ch) => children_names(ch@, 0, fqn).insert(fqn),
            None => Set::empty().insert(fqn),
        }
    } else {
        let cur = if name == root_name() {
            Seq::empty()
        } else {
            parent
        };
        match sym.children {
            Some(ch) => children_names(ch@, 0, cur),
            None => Set::empty(),
        }
    }
}

/// The names of the classes and modules of `ch[i..]` and their descendants.
pub open spec fn children_names(ch: Seq<RawSymbol>, i: int, parent: Seq<char>) -> Set<Seq<char>>
    decreases ch, ch.len() - i,
{
    if i >= ch.len() || i < 0 {
        Set::empty()
    } else {
        symbol_names(ch[i], parent) + children_names(ch, i + 1, parent)
    }
}

/// Storing a class adds its name to the names of the table.
proof fn lemma_table_insert_names(cs: Seq<ClassModel>, c: ClassModel)
    ensures
        class_names(table_insert(cs, c)) == class_names(cs).insert(c.fqn),
{
    let t = table_insert(cs, c);
    lemma_class_index(cs, c.fqn);
    assert forall|k: Seq<char>| class_names(t).contains(k) <==> class_names(cs).insert(c.fqn).contains(k) by {
        match class_index(cs, c.fqn) {
            Some(i) => {
                if class_names(t).contains(k) {
                    let j = choose|j: int| 0 <= j < t.len() && #[trigger] t[j].fqn == k;
                    if j != i {
                        assert(cs[j].fqn == k);
                    }
                }
                if class_names(cs).contains(k) {
                    let j = choose|j: int| 0 <= j < cs.len() && #[trigger] cs[j].fqn == k;
                    assert(t[j].fqn == k);
                }
                if k == c.fqn {
                    assert(t[i].fqn == k);
                }
            },
            None => {
                if class_names(t).contains(k) {
                    let j = choose|j: int| 0 <= j < t.len() && #[trigger] t[j].fqn == k;
                    if j < cs.len() {
                        assert(cs[j].fqn == k);
                    }
                }
                if class_names(cs).contains(k) {
                    let j = choose|j: int| 0 <= j < cs.len() && #[trigger] cs[j].fqn == k;
                    assert(t[j].fqn == k);
                }
                if k == c.fqn {
                    assert(t[cs.len() as int].fqn == k);
                }
            },
        }
    }
    assert(class_names(t) =~= class_names(cs).insert(c.fqn));
}

/// Tables with the same names have the same name set.
proof fn lemma_same_names_set(a: Seq<ClassModel>, b: Seq<ClassModel>)
    requires
        same_names(a, b),
    ensures
        class_names(a) == class_names(b),
{
    assert forall|k: Seq<char>| class_names(a).contains(k) <==> class_names(b).contains(k) by {
        if class_names(a).contains(k) {
            let j = choose|j: int| 0 <= j < a.len() && #[trigger] a[j].fqn == k;
            assert(b[j].fqn == k);
        }
        if class_names(b).contains(k) {
            let j = choose|j: int| 0 <= j < b.len() && #[trigger] b[j].fqn == k;
            assert(a[j].fqn == k);
        }
    }
    assert(class_names(a) =~= class_names(b));
}

/// The classes of a symbol add exactly the symbol's names to the table.
proof fn lemma_classes_into_names(
    sym: RawSymbol,
    parent: Seq<char>,
    m: Map<u64, Seq<char>>,
    cs: Seq<ClassModel>,
)
    ensures
        class_names(classes_into(sym, parent, m, cs)) == class_names(cs) + symbol_names(sym, parent),
    decreases sym, 0int,
{
    let name = sym.name.name@;
    if sym.kind@ == class_kind() && name != root_name() {
        let fqn = symbol_fqn(name, parent);
        let c = symbol_class(sym, fqn, m);
        lemma_table_insert_names(cs, c);
        let cs1 = table_insert(cs, c);
        match sym.children {
            Some(ch) => {
                lemma_children_names(ch@, 0, fqn, m, cs1);
                assert(class_names(cs1) + children_names(ch@, 0, fqn) =~= class_names(cs)
                    + children_names(ch@, 0, fqn).insert(fqn));
            },
            None => {
                assert(class_names(cs1) =~= class_names(cs) + Set::empty().insert(fqn));
            },
        }
    } else {
        let cur = if name == root_name() {
            Seq::empty()
        } else {
            parent
        };
        match sym.children {
            Some(ch) => lemma_children_names(ch@, 0, cur, m, cs),
            None => {
                assert(class_names(cs) + Set::<Seq<char>>::empty() =~= class_names(cs));
            },
        }
    }
}

/// The classes of children add exactly the children's names to the table.
proof fn lemma_children_names(
    ch: Seq<RawSymbol>,
    i: int,
    parent: Seq<char>,
    m: Map<u64, Seq<char>>,
    cs: Seq<ClassModel>,
)
    ensures
        class_names(children_classes(ch, i, parent, m, cs)) == class_names(cs) + children_names(
            ch,
            i,
            parent,
        ),
    decreases ch, ch.len() - i,
{
    if 0 <= i < ch.len() {
        lemma_classes_into_names(ch[i], parent, m, cs);
        lemma_children_names(ch, i + 1, parent, m, classes_into(ch[i], parent, m, cs));
        assert(class_names(cs) + symbol_names(ch[i], parent) + children_names(ch, i + 1, parent)
            =~= class_names(cs) + (symbol_names(ch[i], parent) + children_names(ch, i + 1, parent)));
    } else {
        assert(class_names(cs) + Set::<Seq<char>>::empty() =~= class_names(cs));
    }
}

/// No class of the table lists a method yet.
pub open spec fn no_methods(cs: Seq<ClassModel>) -> bool {
    forall|i: int| 0 <= i < cs.len() ==> (#[trigger] cs[i]).method_fqns == Seq::<FqnModel>::empty()
}

/// The classes of a symbol list no methods.
proof fn lemma_classes_into_no_methods(
    sym: RawSymbol,
    parent: Seq<char>,
    m: Map<u64, Seq<char>>,
    cs: Seq<ClassModel>,
)
    requires
        no_methods(cs),
    ensures
        no_methods(classes_into(sym, parent, m, cs)),
    decreases sym, 0int,
{
    let name = sym.name.name@;
    if sym.kind@ == class_kind() && name != root_name() {
        let fqn = symbol_fqn(name, parent);
        let c = symbol_class(sym, fqn, m);
        lemma_class_index(cs, fqn);
        let cs1 = table_insert(cs, c);
        assert(no_methods(cs1));
        match sym.children {
            Some(ch) => lemma_children_no_methods(ch@, 0, fqn, m, cs1),
            None => {},
        }
    } else {
        let cur = if name == root_name() {
            Seq::empty()
        } else {
            parent
        };
        match sym.children {
            Some(ch) => lemma_children_no_methods(ch@, 0, cur, m, cs),
            None => {},
        }
    }
}

/// The classes of children list no methods.
proof fn lemma_children_no_methods(
    ch: Seq<RawSymbol>,
    i: int,
    parent: Seq<char>,
    m: Map<u64, Seq<char>>,
    cs: Seq<ClassModel>,
)
    requires
        no_methods(cs),
    ensures
        no_methods(children_classes(ch, i, parent, m, cs)),
    decreases ch, ch.len() - i,
{
    if 0 <= i < ch.len() {
        lemma_classes_into_no_methods(ch[i], parent, m, cs);
        lemma_children_no_methods(ch, i + 1, parent, m, classes_into(ch[i], parent, m, cs));
    }
}

/// Autogen files list no methods in a table that lists none.
proof fn lemma_apply_files_no_methods(cs: Seq<ClassModel>, files: Seq<FileModel>)
    requires
        no_methods(cs),
    ensures
        no_methods(apply_files(cs, files)),
    decreases files.len(),
{
    if files.len() > 0 {
        lemma_apply_files_no_methods(cs, files.drop_last());
        let mid = apply_files(cs, files.drop_last());
        lemma_apply_refs_no_methods(mid, files.last().path, files.last().refs);
    }
}

/// References list no methods in a table that lists none.
proof fn lemma_apply_refs_no_methods(cs: Seq<ClassModel>, path: Seq<char>, refs: Seq<RefModel>)
    requires
        no_methods(cs),
    ensures
        no_methods(apply_refs(cs, path, refs)),
    decreases refs.len(),
{
    if refs.len() > 0 {
        lemma_apply_refs_no_methods(cs, path, refs.drop_last());
        let mid = apply_refs(cs, path, refs.drop_last());
        let r = refs.last();
        if r.is_defining_ref {
            lemma_class_index(mid, join(r.resolved, "::"@));
        }
        assert(no_methods(apply_ref(mid, path, r)));
    }
}

/// Each class lists, in order, the methods of the project that belong to
/// it.
pub open spec fn lists_match(p: ProjectModel) -> bool {
    forall|i: int|
        0 <= i < p.classes.len() ==> (#[trigger] p.classes[i]).method_fqns == class_fqns_of(
            p.methods,
            p.classes[i].fqn,
        )
}

/// Adding methods to a table with one entry per name keeps each class's
/// list equal to the methods that belong to it, and adds the methods in
/// order.
proof fn lemma_add_methods_shape(p: ProjectModel, ms: Seq<MethodModel>)
    requires
        crate::model::unique_names(p.classes),
        lists_match(p),
    ensures
        lists_match(add_methods(p, ms)),
        add_methods(p, ms).methods == p.methods + method_infos(ms),
    decreases ms.len(),
{
    if ms.len() == 0 {
        assert(p.methods + method_infos(ms) =~= p.methods);
    } else {
        lemma_add_methods_shape(p, ms.drop_last());
        let q = add_methods(p, ms.drop_last());
        lemma_add_methods_names(p, ms.drop_last());
        assert(crate::model::unique_names(q.classes)) by {
            assert forall|i: int, j: int| 0 <= i < j < q.classes.len() implies q.classes[i].fqn
                != q.classes[j].fqn by {
                assert(q.classes[i].fqn == p.classes[i].fqn);
                assert(q.classes[j].fqn == p.classes[j].fqn);
            }
        }
        let r = add_method(q, ms.last());
        match spec_method_info(ms.last()) {
            None => {
                assert(p.methods + method_infos(ms) == p.methods + method_infos(ms.drop_last()));
            },
            Some(info) => {
                assert(p.methods + method_infos(ms) =~= (p.methods + method_infos(ms.drop_last())).push(
                    info,
                ));
                let k = info.fqn.class_fqn;
                lemma_class_index(q.classes, k);
                assert(r.methods.drop_last() =~= q.methods);
                assert forall|i: int| 0 <= i < r.classes.len() implies (#[trigger] r.classes[i]).method_fqns
                    == class_fqns_of(r.methods, r.classes[i].fqn) by {
                    assert(r.classes[i].fqn == q.classes[i].fqn);
                    assert(q.classes[i].method_fqns == class_fqns_of(q.methods, q.classes[i].fqn));
                    match class_index(q.classes, k) {
                        Some(x) => {
                            if i != x {
                                if q.classes[i].fqn == k {
                                    if i < x {
                                    } else {
                                        assert(q.classes[x].fqn != q.classes[i].fqn);
                                    }
                                }
                                assert(q.classes[i].fqn != k);
                            }
                        },
                        None => {},
                    }
                }
            },
        }
    }
}

/// A project built from the three outputs holds the methods of the
/// cfg-text methods whose header names one, in order; its classes are named
/// exactly by the classes and modules of the symbol table other than the
/// root (`Parent::Name`); and each class lists, in order, the methods of the
/// project that belong to it. A method whose class is not in the table is
/// still among the methods.
pub proof fn lemma_build_shape(ms: Seq<MethodModel>, root: RawSymbol, files: Seq<FileModel>)
    ensures
        spec_build(ms, root, files).methods == method_infos(ms),
        class_names(spec_build(ms, root, files).classes) == symbol_names(root, Seq::empty()),
        lists_match(spec_build(ms, root, files)),
{
    let ids = id_map_into(root, Seq::empty(), Map::empty());
    let cs0 = classes_into(root, Seq::empty(), ids, Seq::empty());
    let cs = apply_files(cs0, files);
    let p = ProjectModel { classes: cs, methods: seq![] };
    lemma_classes_into_names(root, Seq::empty(), ids, Seq::empty());
    assert(class_names(Seq::<ClassModel>::empty()) =~= Set::empty());
    assert(Set::<Seq<char>>::empty() + symbol_names(root, Seq::empty()) =~= symbol_names(
        root,
        Seq::empty(),
    ));
    lemma_apply_files_names(cs0, files);
    lemma_same_names_set(cs0, cs);
    lemma_add_methods_names(p, ms);
    lemma_same_names_set(cs, add_methods(p, ms).classes);
    lemma_classes_into_no_methods(root, Seq::empty(), ids, Seq::empty());
    lemma_apply_files_no_methods(cs0, files);
    lemma_build_unique_names(Seq::empty(), root, files);
    assert(spec_build(Seq::empty(), root, files).classes == cs);
    assert(lists_match(p));
    lemma_add_methods_shape(p, ms);
    assert(p.methods + method_infos(ms) =~= method_infos(ms));
}


/// Every block with exactly one predecessor comes after it in numbering:
/// following single predecessors only goes back towards the entry.
pub open spec fn single_preds_forward(bbs: Seq<BlockView>) -> bool {
    forall|x: usize| #[trigger] preds_of(bbs, x).len() == 1 ==> preds_of(bbs, x)[0].0 < x
}

/// When single predecessors go back towards the entry, the walk back from
/// `p` does not depend on blocks numbered after `p` having been seen.
proof fn lemma_conds_from_fresh(bbs: Seq<BlockView>, p: usize, v: Set<usize>)
    requires
        single_preds_forward(bbs),
        forall|x: usize| x <= p ==> !v.contains(x),
    ensures
        conds_from(bbs, p, v) == conds_from(bbs, p, Set::empty()),
    decreases p,
{
    let ps = preds_of(bbs, p);
    if ps.len() == 1 {
        let q = ps[0].0;
        assert(q < p);
        let e = Set::<usize>::empty();
        lemma_conds_from_fresh(bbs, q, v.insert(p));
        lemma_conds_from_fresh(bbs, q, e.insert(p));
    }
}

/// The conditions on the way to a block: none for a block that has no
/// predecessor or several. For a block whose one predecessor is `p`, the
/// conditions on the way to `p`, then, when the edge is the true or false
/// edge of a branch of `p` on `c`, `c` with that direction; any other edge
/// adds nothing. (Stated for graphs whose single predecessors are numbered
/// before their successors.)
pub proof fn lemma_conditions_step(bbs: Seq<BlockView>, b: usize)
    requires
        single_preds_forward(bbs),
    ensures
        preds_of(bbs, b).len() != 1 ==> spec_conditions(bbs, b) == Seq::<CondModel>::empty(),
        preds_of(bbs, b).len() == 1 ==> spec_conditions(bbs, b) == spec_conditions(
            bbs,
            preds_of(bbs, b)[0].0,
        ) + match (preds_of(bbs, b)[0].1, view_index(bbs, preds_of(bbs, b)[0].0)) {
            (Some(t), Some(k)) => match bbs[k].terminator {
                TermView::Branch { condition, .. } => seq![CondModel { call: condition, is_true: t }],
                _ => Seq::<CondModel>::empty(),
            },
            _ => Seq::<CondModel>::empty(),
        },
{
    let e = Set::<usize>::empty();
    let ps = preds_of(bbs, b);
    if ps.len() != 1 {
        assert(conds_from(bbs, b, e) == Seq::<CondModel>::empty());
        assert(Seq::<CondModel>::empty().reverse() =~= Seq::<CondModel>::empty());
    } else {
        let p = ps[0].0;
        assert(p < b);
        lemma_conds_from_fresh(bbs, p, e.insert(b));
        let ec = edge_condition(bbs, p, ps[0].1);
        let rest = conds_from(bbs, p, e);
        assert(conds_from(bbs, b, e) == ec + rest);
        assert(ec.len() <= 1);
        assert((ec + rest).reverse() =~= rest.reverse() + ec);
    }
}


/// A return of type `t` anywhere in the stream puts `t` among its return
/// types.
proof fn lemma_return_listed(st: Seq<(usize, InstrModel)>, i: int)
    requires
        0 <= i < st.len(),
        st[i].1 is Return,
    ensures
        return_types(st).contains(spec_parse_type(st[i].1->Return_value.ty)),
    decreases st.len(),
{
    let t = spec_parse_type(st[i].1->Return_value.ty);
    let rest = return_types(st.drop_last());
    if i == st.len() - 1 {
        if !rest.contains(t) {
            assert(rest.push(t)[rest.len() as int] == t);
        }
    } else {
        assert(st.drop_last()[i] == st[i]);
        lemma_return_listed(st.drop_last(), i);
        let j = choose|j: int| 0 <= j < rest.len() && rest[j] == t;
        match st.last().1 {
            InstrModel::Return { value } => {
                let u = spec_parse_type(value.ty);
                if !rest.contains(u) {
                    assert(rest.push(u)[j] == t);
                }
            },
            _ => {},
        }
    }
}

/// Instruction `j` of block `k` is in the instruction stream of the blocks.
proof fn lemma_in_stream(blocks: Seq<BlockModel>, k: int, j: int) -> (i: int)
    requires
        0 <= k < blocks.len(),
        0 <= j < blocks[k].instructions.len(),
    ensures
        0 <= i < instr_stream(blocks).len(),
        instr_stream(blocks)[i] == (blocks[k].id, blocks[k].instructions[j]),
    decreases blocks.len(),
{
    let d = blocks.drop_last();
    let pre = instr_stream(d);
    let b = blocks.last();
    assert(instr_stream(blocks) == pre + tagged(b));
    if k == blocks.len() - 1 {
        assert(tagged(b)[j] == (b.id, b.instructions[j]));
        pre.len() + j
    } else {
        assert(d[k] == blocks[k]);
        let i = lemma_in_stream(d, k, j);
        assert((pre + tagged(b))[i] == pre[i]);
        i
    }
}

/// A method that returns an untyped value anywhere has return type
/// `T.untyped`, whatever else it returns.
pub proof fn lemma_untyped_return_wins(m: MethodModel, k: int, j: int)
    requires
        spec_method_info(m) is Some,
        0 <= k < m.blocks.len(),
        0 <= j < m.blocks[k].instructions.len(),
        m.blocks[k].instructions[j] is Return,
        spec_parse_type(m.blocks[k].instructions[j]->Return_value.ty) == TypeModel::Untyped,
    ensures
        spec_method_info(m)->0.return_type == Some(TypeModel::Untyped),
{
    let st = instr_stream(m.blocks);
    let i = lemma_in_stream(m.blocks, k, j);
    lemma_return_listed(st, i);
}


/// Every entry of the instruction stream is an instruction of one of the
/// blocks.
proof fn lemma_from_stream(blocks: Seq<BlockModel>, i: int) -> (kj: (int, int))
    requires
        0 <= i < instr_stream(blocks).len(),
    ensures
        0 <= kj.0 < blocks.len(),
        0 <= kj.1 < blocks[kj.0].instructions.len(),
        instr_stream(blocks)[i].1 == blocks[kj.0].instructions[kj.1],
    decreases blocks.len(),
{
    let d = blocks.drop_last();
    let pre = instr_stream(d);
    let b = blocks.last();
    assert(instr_stream(blocks) == pre + tagged(b));
    if i < pre.len() {
        let (k, j) = lemma_from_stream(d, i);
        assert(d[k] == blocks[k]);
        (k, j)
    } else {
        assert(tagged(b)[i - pre.len()] == (b.id, b.instructions[i - pre.len()]));
        (blocks.len() - 1, i - pre.len())
    }
}

/// When every return of the stream has type `t`, its return types are
/// `t` alone, or none when it returns nothing.
proof fn lemma_returns_all(st: Seq<(usize, InstrModel)>, t: TypeModel)
    requires
        forall|i: int|
            0 <= i < st.len() && (#[trigger] st[i]).1 is Return ==> spec_parse_type(
                st[i].1->Return_value.ty,
            ) == t,
    ensures
        return_types(st) == Seq::<TypeModel>::empty() || return_types(st) == seq![t],
    decreases st.len(),
{
    if st.len() > 0 {
        assert forall|i: int|
            0 <= i < st.drop_last().len() && (#[trigger] st.drop_last()[i]).1 is Return implies spec_parse_type(
            st.drop_last()[i].1->Return_value.ty,
        ) == t by {
            assert(st.drop_last()[i] == st[i]);
        }
        lemma_returns_all(st.drop_last(), t);
        let rest = return_types(st.drop_last());
        if st.last().1 is Return {
            assert(st[st.len() - 1] == st.last());
            if rest.len() == 0 {
                assert(!rest.contains(t));
                assert(rest.push(t) =~= seq![t]);
            } else {
                assert(rest[0] == t);
            }
        }
    }
}

/// A method that returns nothing has no return type; one all of whose
/// returns have the same type `t`, other than `T.untyped`, has return type
/// `t`.
pub proof fn lemma_single_return_type(m: MethodModel, t: TypeModel)
    requires
        spec_method_info(m) is Some,
        forall|k: int, j: int|
            0 <= k < m.blocks.len() && 0 <= j < m.blocks[k].instructions.len() && (
            #[trigger] m.blocks[k].instructions[j]) is Return ==> spec_parse_type(
                m.blocks[k].instructions[j]->Return_value.ty,
            ) == t,
    ensures
        (forall|k: int, j: int|
            0 <= k < m.blocks.len() && 0 <= j < m.blocks[k].instructions.len() ==> !((
            #[trigger] m.blocks[k].instructions[j]) is Return)) ==> spec_method_info(m)->0.return_type
            is None,
        (exists|k: int, j: int|
            0 <= k < m.blocks.len() && 0 <= j < m.blocks[k].instructions.len() && (
            #[trigger] m.blocks[k].instructions[j]) is Return) && t != TypeModel::Untyped
            ==> spec_method_info(m)->0.return_type == Some(t),
{
    let st = instr_stream(m.blocks);
    assert forall|i: int| 0 <= i < st.len() && (#[trigger] st[i]).1 is Return implies spec_parse_type(
        st[i].1->Return_value.ty,
    ) == t by {
        let (k, j) = lemma_from_stream(m.blocks, i);
        assert(m.blocks[k].instructions[j] is Return);
    }
    lemma_returns_all(st, t);
    if exists|k: int, j: int|
        0 <= k < m.blocks.len() && 0 <= j < m.blocks[k].instructions.len() && (
        #[trigger] m.blocks[k].instructions[j]) is Return {
        let (k, j) = choose|k: int, j: int|
            0 <= k < m.blocks.len() && 0 <= j < m.blocks[k].instructions.len() && (
            #[trigger] m.blocks[k].instructions[j]) is Return;
        let i = lemma_in_stream(m.blocks, k, j);
        lemma_return_listed(st, i);
        if t != TypeModel::Untyped {
            assert(return_types(st) == seq![t]);
            assert(!return_types(st).contains(TypeModel::Untyped));
        }
    } else {
        assert forall|i: int| 0 <= i < st.len() implies !((#[trigger] st[i]).1 is Return) by {
            let (k, j) = lemma_from_stream(m.blocks, i);
            if st[i].1 is Return {
                assert(m.blocks[k].instructions[j] is Return);
            }
        }
        lemma_no_returns(st);
    }
}

/// A stream without returns has no return types.
proof fn lemma_no_returns(st: Seq<(usize, InstrModel)>)
    requires
        forall|i: int| 0 <= i < st.len() ==> !((#[trigger] st[i]).1 is Return),
    ensures
        return_types(st) == Seq::<TypeModel>::empty(),
    decreases st.len(),
{
    if st.len() > 0 {
        assert forall|i: int| 0 <= i < st.drop_last().len() implies !((#[trigger] st.drop_last()[i]).1 is Return) by {
            assert(st.drop_last()[i] == st[i]);
        }
        lemma_no_returns(st.drop_last());
        assert(st[st.len() - 1] == st.last());
    }
}

} // verus!

//! Method definition sites found in Sorbet's
//! `--print=parse-tree-json-with-locs` output.
use vstd::prelude::*;

use crate::text::{
    lemma_rfind_occurs, parse_usize, rfind_char, skip, spec_parse_usize,
    spec_rfind, str_eq, string_from_chars, take, to_chars,
};

verus! {

broadcast use {vstd::seq_lib::group_seq_properties, vstd::string::group_string_axioms};

/// Where a method is defined.
#[derive(Debug, Clone)]
pub struct MethodLoc {
    pub file: String,
    pub name: String,
    pub line: usize,
    pub is_class_method: bool,
}

/// A JSON document; an object keeps its members in the order the decoder
/// hands them out, and a number keeps its text.
#[derive(Debug)]
pub enum JsonValue {
    Null,
    Bool(bool),
    Number(String),
    Str(String),
    Array(Vec<JsonValue>),
    Object(Vec<(String, JsonValue)>),
}

/// The parse tree could not be read; the message says why.
#[derive(Debug)]
pub enum ParseTreeError {
    Json(String),
}

/// Model of a [`MethodLoc`].
pub struct LocModel {
    pub file: Seq<char>,
    pub name: Seq<char>,
    pub line: usize,
    pub is_class_method: bool,
}

impl View for MethodLoc {
    type V = LocModel;

    open spec fn view(&self) -> LocModel {
        LocModel {
            file: self.file@,
            name: self.name@,
            line: self.line,
            is_class_method: self.is_class_method,
        }
    }
}

/// Models of locations.
pub open spec fn loc_models(v: Seq<MethodLoc>) -> Seq<LocModel> {
    v.map_values(|x: MethodLoc| x@)
}

/// `path:START_LINE:START_COL-END_LINE:END_COL` read into the path and the
/// start line.
pub open spec fn spec_decl_loc(d: Seq<char>) -> Option<(Seq<char>, usize)> {
    match spec_rfind(d, seq!['-']) {
        None => None,
        Some(a) => {
            let before_dash = d.take(a);
            match spec_rfind(before_dash, seq![':']) {
                None => None,
                Some(b) => {
                    let before_col = before_dash.take(b);
                    match spec_rfind(before_col, seq![':']) {
                        None => None,
                        Some(c) => match spec_parse_usize(before_col.skip(c + 1)) {
                            Some(line) => Some((before_col.take(c), line)),
                            None => None,
                        },
                    }
                },
            }
        },
    }
}

/// `path:START_LINE:START_COL-END_LINE:END_COL` read into the path and the
/// start line.
pub fn parse_decl_loc(decl_loc: &str) -> (r: Option<(String, usize)>)
    ensures
        match r {
            Some((f, l)) => spec_decl_loc(decl_loc@) == Some((f@, l)),
            None => spec_decl_loc(decl_loc@) is None,
        },
{
    let d = to_chars(decl_loc);
    let a = match rfind_char(&d, '-') {
        Some(a) => a,
        None => return None,
    };
    proof {
        lemma_rfind_occurs(d@, seq!['-']);
    }
    let before_dash = take(&d, a);
    let b = match rfind_char(&before_dash, ':') {
        Some(b) => b,
        None => return None,
    };
    proof {
        lemma_rfind_occurs(before_dash@, seq![':']);
    }
    let before_col = take(&before_dash, b);
    let c = match rfind_char(&before_col, ':') {
        Some(c) => c,
        None => return None,
    };
    proof {
        lemma_rfind_occurs(before_col@, seq![':']);
    }
    let ls = skip(&before_col, c + 1);
    match parse_usize(&ls) {
        Some(line) => {
            let f = take(&before_col, c);
            Some((string_from_chars(&f), line))
        },
        None => None,
    }
}

/// The first member of an object with key `key`.
pub open spec fn member(fs: Seq<(String, JsonValue)>, key: Seq<char>) -> Option<JsonValue>
    decreases fs.len(),
{
    if fs.len() == 0 {
        None
    } else if fs[0].0@ == key {
        Some(fs[0].1)
    } else {
        member(fs.drop_first(), key)
    }
}

/// The text of a string value.
pub open spec fn as_text(v: Option<JsonValue>) -> Option<Seq<char>> {
    match v {
        Some(JsonValue::Str(s)) => Some(s@),
        _ => None,
    }
}

/// The location of a method definition node: its `name`, and the path and
/// start line of its `declLoc`.
pub open spec fn spec_method_loc(fs: Seq<(String, JsonValue)>, is_class_method: bool) -> Option<
    LocModel,
> {
    match as_text(member(fs, "name"@)) {
        None => None,
        Some(name) => match as_text(member(fs, "declLoc"@)) {
            None => None,
            Some(d) => match spec_decl_loc(d) {
                None => None,
                Some((file, line)) => Some(LocModel { file, name, line, is_class_method }),
            },
        },
    }
}

/// The location an object node contributes itself: `DefMethod` nodes are
/// instance methods, `DefS` nodes are class methods.
pub open spec fn own_locs(fs: Seq<(String, JsonValue)>) -> Seq<LocModel> {
    let ty = match as_text(member(fs, "type"@)) {
        Some(t) => t,
        None => Seq::empty(),
    };
    let found = if ty == "DefMethod"@ {
        spec_method_loc(fs, false)
    } else if ty == "DefS"@ {
        spec_method_loc(fs, true)
    } else {
        None
    };
    match found {
        Some(l) => seq![l],
        None => seq![],
    }
}

/// Method locations in a node and its descendants, in document order: the
/// node itself first, then its members; only objects are searched, and
/// arrays only one level deep.
pub open spec fn json_locs(v: JsonValue) -> Seq<LocModel>
    decreases v, 3int,
{
    match v {
        JsonValue::Object(fs) => own_locs(fs@) + members_locs(fs@),
        _ => seq![],
    }
}

/// Method locations under the members of an object.
pub open spec fn members_locs(fs: Seq<(String, JsonValue)>) -> Seq<LocModel>
    decreases fs, fs.len(),
{
    if fs.len() == 0 {
        seq![]
    } else {
        members_locs(fs.drop_last()) + member_locs(fs.last().1)
    }
}

/// Method locations under one member value.
pub open spec fn member_locs(v: JsonValue) -> Seq<LocModel>
    decreases v, 4int,
{
    match v {
        JsonValue::Object(_) => json_locs(v),
        JsonValue::Array(items) => items_locs(items@),
        _ => seq![],
    }
}

/// Method locations under the items of an array.
pub open spec fn items_locs(items: Seq<JsonValue>) -> Seq<LocModel>
    decreases items, items.len(),
{
    if items.len() == 0 {
        seq![]
    } else {
        items_locs(items.drop_last()) + json_locs(items.last())
    }
}

/// The location a `DefMethod` or `DefS` node gives, if it has a string
/// `name` and a readable string `declLoc`.
fn method_loc(fs: &Vec<(String, JsonValue)>, is_class_method: bool) -> (r: Option<MethodLoc>)
    ensures
        match r {
            Some(l) => spec_method_loc(fs@, is_class_method) == Some(l@),
            None => spec_method_loc(fs@, is_class_method) is None,
        },
{
    let name = match member_text(fs, "name") {
        Some(n) => n,
        None => return None,
    };
    let d = match member_text(fs, "declLoc") {
        Some(d) => d,
        None => return None,
    };
    match parse_decl_loc(d) {
        Some((file, line)) => Some(MethodLoc { file, name: name.clone(), line, is_class_method }),
        None => None,
    }
}

/// The text of the first member named `key`, if that member is a string.
fn member_text<'a>(fs: &'a Vec<(String, JsonValue)>, key: &str) -> (r: Option<&'a String>)
    ensures
        match r {
            Some(t) => as_text(member(fs@, key@)) == Some(t@),
            None => as_text(member(fs@, key@)) is None,
        },
{
    let mut i: usize = 0;
    while i < fs.len()
        invariant
            i <= fs.len(),
            member(fs@, key@) == member(fs@.skip(i as int), key@),
        decreases fs.len() - i,
    {
        assert(fs@.skip(i as int).drop_first() == fs@.skip(i + 1));
        if str_eq(fs[i].0.as_str(), key) {
            return match &fs[i].1 {
                JsonValue::Str(t) => Some(t),
                _ => None,
            };
        }
        i += 1;
    }
    None
}

/// Appends the location `fs` contributes itself.
fn push_own_loc(fs: &Vec<(String, JsonValue)>, locs: &mut Vec<MethodLoc>)
    ensures
        loc_models(final(locs)@) == loc_models(old(locs)@) + own_locs(fs@),
{
    let ty = member_text(fs, "type");
    let found = match ty {
        Some(t) => {
            if str_eq(t.as_str(), "DefMethod") {
                method_loc(fs, false)
            } else if str_eq(t.as_str(), "DefS") {
                method_loc(fs, true)
            } else {
                None
            }
        },
        None => None,
    };
    proof {
        reveal_strlit("DefMethod");
        reveal_strlit("DefS");
    }
    match found {
        Some(l) => {
            locs.push(l);
        },
        None => {},
    }
    assert(loc_models(locs@) == loc_models(old(locs)@) + own_locs(fs@));
}

/// Appends the method locations in `v` and its descendants.
fn walk_value(v: &JsonValue, locs: &mut Vec<MethodLoc>)
    ensures
        loc_models(final(locs)@) == loc_models(old(locs)@) + json_locs(*v),
    decreases v, 3int,
{
    match v {
        JsonValue::Object(fs) => {
            push_own_loc(fs, locs);
            let mut i: usize = 0;
            while i < fs.len()
                invariant
                    i <= fs.len(),
                    *v == JsonValue::Object(*fs),
                    loc_models(locs@) == loc_models(old(locs)@) + own_locs(fs@) + members_locs(
                        fs@.take(i as int),
                    ),
                decreases fs.len() - i,
            {
                assert(fs@.take(i + 1).drop_last() == fs@.take(i as int));
                proof {
                    let f = fs@[i as int];
                    assert(decreases_to!(*v => v->Object_0));
                    assert(decreases_to!(*fs => fs@));
                    assert(decreases_to!(fs@ => fs@[i as int]));
                    assert(decreases_to!(f => f.1));
                }
                walk_member(&fs[i].1, locs);
                i += 1;
            }
            assert(fs@.take(fs.len() as int) == fs@);
        },
        _ => {},
    }
}

/// Appends the method locations under one member value.
fn walk_member(v: &JsonValue, locs: &mut Vec<MethodLoc>)
    ensures
        loc_models(final(locs)@) == loc_models(old(locs)@) + member_locs(*v),
    decreases v, 4int,
{
    match v {
        JsonValue::Object(_) => walk_value(v, locs),
        JsonValue::Array(items) => walk_items(items, locs),
        _ => {},
    }
}

/// Appends the method locations under the items of an array.
fn walk_items(items: &Vec<JsonValue>, locs: &mut Vec<MethodLoc>)
    ensures
        loc_models(final(locs)@) == loc_models(old(locs)@) + items_locs(items@),
    decreases items, 5int,
{
    let mut j: usize = 0;
    while j < items.len()
        invariant
            j <= items.len(),
            loc_models(locs@) == loc_models(old(locs)@) + items_locs(items@.take(j as int)),
        decreases items.len() - j,
    {
        assert(items@.take(j + 1).drop_last() == items@.take(j as int));
        walk_value(&items[j], locs);
        j += 1;
    }
    assert(items@.take(items.len() as int) == items@);
}

/// The method definition sites in a stream of parse-tree documents, in
/// document order: each `DefMethod` node gives an instance method and each
/// `DefS` node a class method, located by the path and start line of its
/// `declLoc`.
pub fn method_locs(values: &Vec<JsonValue>) -> (r: Vec<MethodLoc>)
    ensures
        loc_models(r@) == items_locs(values@),
{
    let mut locs: Vec<MethodLoc> = Vec::new();
    walk_items(values, &mut locs);
    assert(loc_models(locs@) == loc_models(Seq::<MethodLoc>::empty()) + items_locs(values@));
    locs
}


/// `x` occurs in `s` at `k` and nowhere after.
proof fn lemma_rfind_char_at(s: Seq<char>, x: char, k: int, i: int)
    requires
        0 <= k <= i < s.len(),
        s[k] == x,
        forall|j: int| k < j < s.len() ==> s[j] != x,
    ensures
        crate::text::rfind_upto(s, seq![x], i) == Some(k),
    decreases i - k,
{
    assert(s.subrange(k, k + 1) =~= seq![x]);
    if i > k {
        assert(s.subrange(i, i + 1)[0] == s[i]);
        lemma_rfind_char_at(s, x, k, i - 1);
    }
}

/// The last `x` of `s` is at `k`.
proof fn lemma_rfind_char(s: Seq<char>, x: char, k: int)
    requires
        0 <= k < s.len(),
        s[k] == x,
        forall|j: int| k < j < s.len() ==> s[j] != x,
    ensures
        spec_rfind(s, seq![x]) == Some(k),
{
    lemma_rfind_char_at(s, x, k, s.len() - 1);
}

/// Decimal digits only.
pub open spec fn digit_text(s: Seq<char>) -> bool {
    s.len() > 0 && crate::text::all_digits(s)
}

/// A `declLoc` written as `path:LINE:COL-END_LINE:END_COL`, with decimal
/// numbers, reads back as the path and the start line, whatever the path
/// holds.
pub proof fn lemma_decl_loc_format(
    path: Seq<char>,
    line: Seq<char>,
    col: Seq<char>,
    end_line: Seq<char>,
    end_col: Seq<char>,
)
    requires
        digit_text(line),
        digit_text(col),
        digit_text(end_line),
        digit_text(end_col),
        crate::text::digits_value(line) <= usize::MAX,
    ensures
        spec_decl_loc(
            path + seq![':'] + line + seq![':'] + col + seq!['-'] + end_line + seq![':'] + end_col,
        ) == Some((path, crate::text::digits_value(line) as usize)),
{
    let d = path + seq![':'] + line + seq![':'] + col + seq!['-'] + end_line + seq![':'] + end_col;
    let a: int = path.len() + line.len() + col.len() + 2int;
    assert forall|j: int| a < j < d.len() implies d[j] != '-' by {
        if j < a + 1 + end_line.len() {
            assert(d[j] == end_line[j - a - 1]);
            assert(crate::text::is_digit(end_line[j - a - 1]));
        } else if j > a + 1 + end_line.len() {
            assert(d[j] == end_col[j - a - 2 - end_line.len()]);
            assert(crate::text::is_digit(end_col[j - a - 2 - end_line.len()]));
        }
    }
    assert(d[a] == '-');
    lemma_rfind_char(d, '-', a);
    let before_dash = d.take(a);
    assert(before_dash =~= path + seq![':'] + line + seq![':'] + col);
    let b: int = path.len() + line.len() + 1int;
    assert forall|j: int| b < j < before_dash.len() implies before_dash[j] != ':' by {
        assert(before_dash[j] == col[j - b - 1]);
        assert(crate::text::is_digit(col[j - b - 1]));
    }
    lemma_rfind_char(before_dash, ':', b);
    let before_col = before_dash.take(b);
    assert(before_col =~= path + seq![':'] + line);
    let c = path.len() as int;
    assert forall|j: int| c < j < before_col.len() implies before_col[j] != ':' by {
        assert(before_col[j] == line[j - c - 1]);
        assert(crate::text::is_digit(line[j - c - 1]));
    }
    lemma_rfind_char(before_col, ':', c);
    assert(before_col.skip(c + 1) =~= line);
    assert(before_col.take(c) =~= path);
    assert(!crate::text::has_prefix(line, seq!['+'])) by {
        assert(crate::text::is_digit(line[0]));
        assert(line.subrange(0, 1)[0] == line[0]);
        assert(seq!['+'][0] == '+');
    }
    assert(crate::text::strip_prefix_or_keep(line, seq!['+']) == line);
}

} // verus!

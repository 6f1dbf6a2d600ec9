//! Reader for Sorbet's `--print=autogen` output: per file, its class and
//! module definitions and its constant references.
use vstd::prelude::*;

use crate::sorbet_type::between;
use crate::text::{
    eq_str, lines, parse_usize, slice_chars, spec_lines, spec_parse_usize,
    spec_strip_prefix, split_char, split_whitespace, split_on, split_ws, str_views,
    string_from_chars, strip_prefix_str, strip_suffix_or_keep, strip_suffix_or_keep_str,
    strip_suffix_str, to_chars, trim, trim_chars, views, take,
};

verus! {

broadcast use {vstd::seq_lib::group_seq_properties, vstd::string::group_string_axioms};

// ---------------------------------------------------------------------------
// Types
// ---------------------------------------------------------------------------

/// One `# ParsedFile:` section.
#[derive(Debug)]
pub struct AutogenFile {
    pub path: String,
    pub requires: Vec<String>,
    pub defs: Vec<AutogenDef>,
    pub refs: Vec<AutogenRef>,
}

/// One `[def id=N]` entry.
#[derive(Debug)]
pub struct AutogenDef {
    pub id: usize,
    pub kind: DefKind,
    pub defines_behavior: bool,
    pub is_empty: bool,
    pub defining_ref: Option<Vec<String>>,
    pub parent_ref: Option<Vec<String>>,
    pub aliased_ref: Option<Vec<String>>,
}

/// Whether a definition is a class or a module.
#[derive(Debug, Clone, Copy, PartialEq, Eq, Structural)]
pub enum DefKind {
    Class,
    Module,
}

/// One `[ref id=N]` entry.
#[derive(Debug)]
pub struct AutogenRef {
    pub id: usize,
    pub scope: Vec<String>,
    pub name: Vec<String>,
    pub nesting: Vec<Vec<String>>,
    pub resolved: Vec<String>,
    pub loc: String,
    pub is_defining_ref: bool,
    pub parent_of: Option<Vec<String>>,
}

/// Reading autogen output does not fail; the type is kept for callers that
/// handle all of Sorbet's outputs alike.
#[derive(Debug)]
pub enum AutogenParseError {
    ParseError { line: usize, message: String },
}

// ---------------------------------------------------------------------------
// Models
// ---------------------------------------------------------------------------

/// Model of a list of names.
pub type Names = Seq<Seq<char>>;

/// Model of an optional list of names.
pub open spec fn opt_names(o: Option<Vec<String>>) -> Option<Names> {
    match o {
        Some(v) => Some(str_views(v@)),
        None => None,
    }
}

/// Model of an [`AutogenDef`].
pub struct DefModel {
    pub id: usize,
    pub kind: DefKind,
    pub defines_behavior: bool,
    pub is_empty: bool,
    pub defining_ref: Option<Names>,
    pub parent_ref: Option<Names>,
    pub aliased_ref: Option<Names>,
}

/// Model of an [`AutogenRef`].
pub struct RefModel {
    pub id: usize,
    pub scope: Names,
    pub name: Names,
    pub nesting: Seq<Names>,
    pub resolved: Names,
    pub loc: Seq<char>,
    pub is_defining_ref: bool,
    pub parent_of: Option<Names>,
}

/// Model of an [`AutogenFile`].
pub struct FileModel {
    pub path: Seq<char>,
    pub requires: Names,
    pub defs: Seq<DefModel>,
    pub refs: Seq<RefModel>,
}

/// Models of nested name lists.
pub open spec fn nested_views(v: Seq<Vec<String>>) -> Seq<Names> {
    v.map_values(|x: Vec<String>| str_views(x@))
}

impl View for AutogenDef {
    type V = DefModel;

    open spec fn view(&self) -> DefModel {
        DefModel {
            id: self.id,
            kind: self.kind,
            defines_behavior: self.defines_behavior,
            is_empty: self.is_empty,
            defining_ref: opt_names(self.defining_ref),
            parent_ref: opt_names(self.parent_ref),
            aliased_ref: opt_names(self.aliased_ref),
        }
    }
}

impl View for AutogenRef {
    type V = RefModel;

    open spec fn view(&self) -> RefModel {
        RefModel {
            id: self.id,
            scope: str_views(self.scope@),
            name: str_views(self.name@),
            nesting: nested_views(self.nesting@),
            resolved: str_views(self.resolved@),
            loc: self.loc@,
            is_defining_ref: self.is_defining_ref,
            parent_of: opt_names(self.parent_of),
        }
    }
}

/// Models of definitions.
pub open spec fn def_models(v: Seq<AutogenDef>) -> Seq<DefModel> {
    v.map_values(|x: AutogenDef| x@)
}

/// Models of references.
pub open spec fn ref_models(v: Seq<AutogenRef>) -> Seq<RefModel> {
    v.map_values(|x: AutogenRef| x@)
}

impl View for AutogenFile {
    type V = FileModel;

    open spec fn view(&self) -> FileModel {
        FileModel {
            path: self.path@,
            requires: str_views(self.requires@),
            defs: def_models(self.defs@),
            refs: ref_models(self.refs@),
        }
    }
}

/// Models of files.
pub open spec fn file_models(v: Seq<AutogenFile>) -> Seq<FileModel> {
    v.map_values(|x: AutogenFile| x@)
}

// ---------------------------------------------------------------------------
// Field values
// ---------------------------------------------------------------------------

/// The text inside `[...]` (after trimming), or the trimmed text when it is
/// not bracketed.
pub open spec fn bracket_inner(s: Seq<char>) -> Seq<char> {
    let t = trim(s);
    match between(t, seq!['['], seq![']']) {
        Some(i) => i,
        None => t,
    }
}

/// `[A B]`: whitespace-separated names.
pub open spec fn spec_bracket_names(s: Seq<char>) -> Names {
    let inner = bracket_inner(s);
    if inner.len() == 0 {
        seq![]
    } else {
        split_ws(inner)
    }
}

/// Each entry trimmed.
pub open spec fn trimmed(v: Names) -> Names {
    v.map_values(|p: Seq<char>| trim(p))
}

/// `[a, b]`: comma-separated entries, each trimmed.
pub open spec fn spec_bracket_list(s: Seq<char>) -> Names {
    let inner = bracket_inner(s);
    if inner.len() == 0 {
        seq![]
    } else {
        trimmed(split_on(inner, ','))
    }
}

/// Groups of `[[A B] [C]]` scanned from index `i`, with `depth` the bracket
/// nesting before `i` and `start` where the current group began.
pub open spec fn nesting_from(s: Seq<char>, i: int, depth: int, start: int) -> Seq<Names>
    decreases s.len() - i,
{
    if i >= s.len() || i < 0 {
        seq![]
    } else if s[i] == '[' {
        nesting_from(s, i + 1, depth + 1, if depth == 0 {
            i + 1
        } else {
            start
        })
    } else if s[i] == ']' {
        if depth - 1 == 0 {
            seq![split_ws(s.subrange(start, i))] + nesting_from(s, i + 1, depth - 1, start)
        } else {
            nesting_from(s, i + 1, depth - 1, start)
        }
    } else {
        nesting_from(s, i + 1, depth, start)
    }
}

/// `[[A B] [C]]`: the groups of names at the first nesting level.
pub open spec fn spec_nesting(s: Seq<char>) -> Seq<Names> {
    let inner = bracket_inner(s);
    if inner.len() == 0 {
        seq![]
    } else {
        nesting_from(inner, 0, 0, 0)
    }
}

/// Strings from character vectors.
fn strings_of(v: &Vec<Vec<char>>) -> (r: Vec<String>)
    ensures
        str_views(r@) == views(v@),
{
    let mut out: Vec<String> = Vec::new();
    let mut i: usize = 0;
    while i < v.len()
        invariant
            i <= v.len(),
            str_views(out@) == views(v@).take(i as int),
        decreases v.len() - i,
    {
        let ghost prev = out@;
        let s = string_from_chars(&v[i]);
        out.push(s);
        assert(str_views(out@) =~= str_views(prev).push(s@));
        assert(views(v@).take(i + 1) =~= views(v@).take(i as int).push(v@[i as int]@));
        i += 1;
    }
    assert(views(v@).take(v.len() as int) =~= views(v@));
    out
}

fn bracket_inner_chars(s: &Vec<char>) -> (r: Vec<char>)
    ensures
        r@ == bracket_inner(s@),
{
    let t = trim_chars(s);
    proof {
        reveal_strlit("[");
        reveal_strlit("]");
        assert("["@ =~= seq!['[']);
        assert("]"@ =~= seq![']']);
    }
    match strip_prefix_str(&t, "[") {
        Some(r) => match strip_suffix_str(&r, "]") {
            Some(i) => i,
            None => t,
        },
        None => t,
    }
}

/// `[A B]`: whitespace-separated names.
pub fn parse_bracket_names(s: &Vec<char>) -> (r: Vec<String>)
    ensures
        str_views(r@) == spec_bracket_names(s@),
{
    let inner = bracket_inner_chars(s);
    if inner.len() == 0 {
        let v: Vec<String> = Vec::new();
        assert(str_views(v@) =~= seq![]);
        return v;
    }
    let words = split_whitespace(&inner);
    strings_of(&words)
}

/// `[a, b]`: comma-separated entries, each trimmed.
pub fn parse_bracket_list(s: &Vec<char>) -> (r: Vec<String>)
    ensures
        str_views(r@) == spec_bracket_list(s@),
{
    let inner = bracket_inner_chars(s);
    if inner.len() == 0 {
        let v: Vec<String> = Vec::new();
        assert(str_views(v@) =~= seq![]);
        return v;
    }
    let parts = split_char(&inner, ',');
    let mut out: Vec<String> = Vec::new();
    let mut i: usize = 0;
    let ghost ps = split_on(inner@, ',');
    while i < parts.len()
        invariant
            i <= parts.len(),
            ps == views(parts@),
            str_views(out@) == trimmed(ps.take(i as int)),
        decreases parts.len() - i,
    {
        let t = trim_chars(&parts[i]);
        let ghost prev = out@;
        let st = string_from_chars(&t);
        out.push(st);
        assert(str_views(out@) =~= str_views(prev).push(st@));
        assert(ps.take(i + 1) =~= ps.take(i as int).push(parts@[i as int]@));
        assert(trimmed(ps.take(i + 1)) =~= trimmed(ps.take(i as int)).push(trim(parts@[i as int]@)));
        i += 1;
    }
    assert(ps.take(parts.len() as int) =~= ps);
    out
}

/// `[[A B] [C]]`: the groups of names at the first nesting level.
pub fn parse_nesting(s: &Vec<char>) -> (r: Vec<Vec<String>>)
    ensures
        nested_views(r@) == spec_nesting(s@),
{
    let inner = bracket_inner_chars(s);
    let mut out: Vec<Vec<String>> = Vec::new();
    if inner.len() == 0 {
        assert(nested_views(out@) =~= seq![]);
        return out;
    }
    let mut opens: usize = 0;
    let mut closes: usize = 0;
    let mut start: usize = 0;
    let mut i: usize = 0;
    assert(nested_views(out@) + nesting_from(inner@, 0, 0, 0) =~= nesting_from(inner@, 0, 0, 0));
    while i < inner.len()
        invariant
            i <= inner.len(),
            start <= i,
            opens + closes <= i,
            nested_views(out@) + nesting_from(inner@, i as int, opens - closes, start as int)
                == nesting_from(inner@, 0, 0, 0),
        decreases inner.len() - i,
    {
        let c = inner[i];
        if c == '[' {
            if opens == closes {
                start = i + 1;
            }
            opens += 1;
        } else if c == ']' {
            closes += 1;
            if opens == closes {
                let g = slice_chars(&inner, start, i);
                let words = split_whitespace(&g);
                let names = strings_of(&words);
                let ghost prev = out@;
                out.push(names);
                assert(nested_views(out@) =~= nested_views(prev).push(str_views(names@)));
                assert(nested_views(out@) + nesting_from(inner@, i + 1, opens - closes, start as int)
                    =~= nested_views(prev) + nesting_from(inner@, i as int, opens - (closes - 1),
                    start as int));
            }
        }
        i += 1;
    }
    assert(nested_views(out@) =~= nested_views(out@) + nesting_from(
        inner@,
        i as int,
        opens - closes,
        start as int,
    ));
    out
}


// ---------------------------------------------------------------------------
// Reading a whole output
// ---------------------------------------------------------------------------

/// Which list the entry lines currently belong to.
#[derive(Debug, Clone, Copy, PartialEq, Eq, Structural)]
pub enum Section {
    Outside,
    Defs,
    Refs,
}

/// A definition whose field lines are being read.
pub struct DefBuilderModel {
    pub id: usize,
    pub kind: Option<DefKind>,
    pub defines_behavior: bool,
    pub is_empty: bool,
    pub defining_ref: Option<Names>,
    pub parent_ref: Option<Names>,
    pub aliased_ref: Option<Names>,
}

/// The finished definition; a definition without a `type=` line is a class.
pub open spec fn finish_def(d: DefBuilderModel) -> DefModel {
    DefModel {
        id: d.id,
        kind: match d.kind {
            Some(k) => k,
            None => DefKind::Class,
        },
        defines_behavior: d.defines_behavior,
        is_empty: d.is_empty,
        defining_ref: d.defining_ref,
        parent_ref: d.parent_ref,
        aliased_ref: d.aliased_ref,
    }
}

/// The state of the reader between lines.
pub struct AutogenState {
    pub files: Seq<FileModel>,
    pub file: Option<FileModel>,
    pub section: Section,
    pub def: Option<DefBuilderModel>,
    pub refb: Option<RefModel>,
}

/// The open entry, if any, added to the current file (dropped when there is
/// no file).
pub open spec fn flush(st: AutogenState) -> AutogenState {
    let f1 = match st.def {
        Some(d) => match st.file {
            Some(f) => Some(FileModel { defs: f.defs.push(finish_def(d)), ..f }),
            None => st.file,
        },
        None => st.file,
    };
    let f2 = match st.refb {
        Some(r) => match f1 {
            Some(f) => Some(FileModel { refs: f.refs.push(r), ..f }),
            None => f1,
        },
        None => f1,
    };
    AutogenState { file: f2, def: None, refb: None, ..st }
}

/// A definition with one `key=value` field line applied.
pub open spec fn def_field(d: DefBuilderModel, field: Seq<char>) -> DefBuilderModel {
    match spec_strip_prefix(field, "type="@) {
        Some(v) => DefBuilderModel {
            kind: Some(
                if v == "module"@ {
                    DefKind::Module
                } else {
                    DefKind::Class
                },
            ),
            ..d
        },
        None => match spec_strip_prefix(field, "defines_behavior="@) {
            Some(v) => DefBuilderModel { defines_behavior: v == "1"@, ..d },
            None => match spec_strip_prefix(field, "is_empty="@) {
                Some(v) => DefBuilderModel { is_empty: v == "1"@, ..d },
                None => match spec_strip_prefix(field, "defining_ref="@) {
                    Some(v) => DefBuilderModel { defining_ref: Some(spec_bracket_names(v)), ..d },
                    None => match spec_strip_prefix(field, "parent_ref="@) {
                        Some(v) => DefBuilderModel { parent_ref: Some(spec_bracket_names(v)), ..d },
                        None => match spec_strip_prefix(field, "aliased_ref="@) {
                            Some(v) => DefBuilderModel {
                                aliased_ref: Some(spec_bracket_names(v)),
                                ..d
                            },
                            None => d,
                        },
                    },
                },
            },
        },
    }
}

/// A reference with one `key=value` field line applied.
pub open spec fn ref_field(r: RefModel, field: Seq<char>) -> RefModel {
    match spec_strip_prefix(field, "scope="@) {
        Some(v) => RefModel { scope: spec_bracket_names(v), ..r },
        None => match spec_strip_prefix(field, "name="@) {
            Some(v) => RefModel { name: spec_bracket_names(v), ..r },
            None => match spec_strip_prefix(field, "nesting="@) {
                Some(v) => RefModel { nesting: spec_nesting(v), ..r },
                None => match spec_strip_prefix(field, "resolved="@) {
                    Some(v) => RefModel { resolved: spec_bracket_names(v), ..r },
                    None => match spec_strip_prefix(field, "loc="@) {
                        Some(v) => RefModel { loc: v, ..r },
                        None => match spec_strip_prefix(field, "is_defining_ref="@) {
                            Some(v) => RefModel { is_defining_ref: v == "1"@, ..r },
                            None => match spec_strip_prefix(field, "parent_of="@) {
                                Some(v) => RefModel { parent_of: Some(spec_bracket_names(v)), ..r },
                                None => r,
                            },
                        },
                    },
                },
            },
        },
    }
}

/// The id of an entry header `[def id=N]`, given what follows `id=`; 0 when
/// it is not a number.
pub open spec fn entry_id(rest: Seq<char>) -> usize {
    match spec_parse_usize(strip_suffix_or_keep(rest, "]"@)) {
        Some(n) => n,
        None => 0,
    }
}

/// One line read.
pub open spec fn autogen_step(st: AutogenState, line: Seq<char>) -> AutogenState {
    if spec_strip_prefix(line, "# ParsedFile: "@) is Some {
        let s1 = flush(st);
        AutogenState {
            files: match s1.file {
                Some(f) => s1.files.push(f),
                None => s1.files,
            },
            file: Some(
                FileModel {
                    path: spec_strip_prefix(line, "# ParsedFile: "@)->0,
                    requires: seq![],
                    defs: seq![],
                    refs: seq![],
                },
            ),
            section: Section::Outside,
            def: None,
            refb: None,
        }
    } else if spec_strip_prefix(line, "requires: "@) is Some {
        match st.file {
            Some(f) => AutogenState {
                file: Some(
                    FileModel {
                        requires: spec_bracket_list(spec_strip_prefix(line, "requires: "@)->0),
                        ..f
                    },
                ),
                ..st
            },
            None => st,
        }
    } else if line == "## defs:"@ {
        AutogenState { section: Section::Defs, ..flush(st) }
    } else if line == "## refs:"@ {
        AutogenState { section: Section::Refs, ..flush(st) }
    } else if spec_strip_prefix(line, "[def id="@) is Some {
        AutogenState {
            def: Some(
                DefBuilderModel {
                    id: entry_id(spec_strip_prefix(line, "[def id="@)->0),
                    kind: None,
                    defines_behavior: false,
                    is_empty: false,
                    defining_ref: None,
                    parent_ref: None,
                    aliased_ref: None,
                },
            ),
            ..flush(st)
        }
    } else if spec_strip_prefix(line, "[ref id="@) is Some {
        AutogenState {
            refb: Some(
                RefModel {
                    id: entry_id(spec_strip_prefix(line, "[ref id="@)->0),
                    scope: seq![],
                    name: seq![],
                    nesting: seq![],
                    resolved: seq![],
                    loc: seq![],
                    is_defining_ref: false,
                    parent_of: None,
                },
            ),
            ..flush(st)
        }
    } else if spec_strip_prefix(line, " "@) is Some {
        let field = spec_strip_prefix(line, " "@)->0;
        match st.section {
            Section::Defs => match st.def {
                Some(d) => AutogenState { def: Some(def_field(d, field)), ..st },
                None => st,
            },
            Section::Refs => match st.refb {
                Some(r) => AutogenState { refb: Some(ref_field(r, field)), ..st },
                None => st,
            },
            Section::Outside => st,
        }
    } else {
        st
    }
}

/// The lines from index `i` on read from state `st`.
pub open spec fn autogen_from(lines: Seq<Seq<char>>, i: int, st: AutogenState) -> AutogenState
    decreases lines.len() - i,
{
    if i >= lines.len() || i < 0 {
        st
    } else {
        autogen_from(lines, i + 1, autogen_step(st, lines[i]))
    }
}

/// The reader before the first line.
pub open spec fn initial_autogen_state() -> AutogenState {
    AutogenState { files: seq![], file: None, section: Section::Outside, def: None, refb: None }
}

/// The files read once the input ends.
pub open spec fn finish_autogen(st: AutogenState) -> Seq<FileModel> {
    let s1 = flush(st);
    match s1.file {
        Some(f) => s1.files.push(f),
        None => s1.files,
    }
}

/// What reading the autogen output `input` yields.
pub open spec fn spec_parse_autogen(input: Seq<char>) -> Seq<FileModel> {
    finish_autogen(autogen_from(spec_lines(input), 0, initial_autogen_state()))
}

struct DefBuilder {
    id: usize,
    kind: Option<DefKind>,
    defines_behavior: bool,
    is_empty: bool,
    defining_ref: Option<Vec<String>>,
    parent_ref: Option<Vec<String>>,
    aliased_ref: Option<Vec<String>>,
}

impl View for DefBuilder {
    type V = DefBuilderModel;

    closed spec fn view(&self) -> DefBuilderModel {
        DefBuilderModel {
            id: self.id,
            kind: self.kind,
            defines_behavior: self.defines_behavior,
            is_empty: self.is_empty,
            defining_ref: opt_names(self.defining_ref),
            parent_ref: opt_names(self.parent_ref),
            aliased_ref: opt_names(self.aliased_ref),
        }
    }
}

impl DefBuilder {
    fn finish(self) -> (r: AutogenDef)
        ensures
            r@ == finish_def(self@),
    {
        AutogenDef {
            id: self.id,
            kind: match self.kind {
                Some(k) => k,
                None => DefKind::Class,
            },
            defines_behavior: self.defines_behavior,
            is_empty: self.is_empty,
            defining_ref: self.defining_ref,
            parent_ref: self.parent_ref,
            aliased_ref: self.aliased_ref,
        }
    }
}

struct AutogenReader {
    files: Vec<AutogenFile>,
    file: Option<AutogenFile>,
    section: Section,
    def: Option<DefBuilder>,
    refb: Option<AutogenRef>,
}

impl View for AutogenReader {
    type V = AutogenState;

    closed spec fn view(&self) -> AutogenState {
        AutogenState {
            files: file_models(self.files@),
            file: match self.file {
                Some(f) => Some(f@),
                None => None,
            },
            section: self.section,
            def: match self.def {
                Some(d) => Some(d@),
                None => None,
            },
            refb: match self.refb {
                Some(r) => Some(r@),
                None => None,
            },
        }
    }
}

fn flush_exec(st: AutogenReader) -> (r: AutogenReader)
    ensures
        r@ == flush(st@),
{
    let AutogenReader { files, file, section, def, refb } = st;
    let file = match def {
        Some(d) => match file {
            Some(mut f) => {
                let ghost prev = f.defs@;
                let x = d.finish();
                f.defs.push(x);
                assert(def_models(f.defs@) =~= def_models(prev).push(x@));
                Some(f)
            },
            None => None,
        },
        None => file,
    };
    let file = match refb {
        Some(r) => match file {
            Some(mut f) => {
                let ghost prev = f.refs@;
                let ghost rv = r@;
                f.refs.push(r);
                assert(ref_models(f.refs@) =~= ref_models(prev).push(rv));
                Some(f)
            },
            None => None,
        },
        None => file,
    };
    AutogenReader { files, file, section, def: None, refb: None }
}

fn def_field_exec(d: DefBuilder, field: &Vec<char>) -> (r: DefBuilder)
    ensures
        r@ == def_field(d@, field@),
{
    let mut d = d;
    if let Some(v) = strip_prefix_str(field, "type=") {
        d.kind = Some(
            if eq_str(&v, "module") {
                DefKind::Module
            } else {
                DefKind::Class
            },
        );
        return d;
    }
    if let Some(v) = strip_prefix_str(field, "defines_behavior=") {
        d.defines_behavior = eq_str(&v, "1");
        return d;
    }
    if let Some(v) = strip_prefix_str(field, "is_empty=") {
        d.is_empty = eq_str(&v, "1");
        return d;
    }
    if let Some(v) = strip_prefix_str(field, "defining_ref=") {
        d.defining_ref = Some(parse_bracket_names(&v));
        return d;
    }
    if let Some(v) = strip_prefix_str(field, "parent_ref=") {
        d.parent_ref = Some(parse_bracket_names(&v));
        return d;
    }
    if let Some(v) = strip_prefix_str(field, "aliased_ref=") {
        d.aliased_ref = Some(parse_bracket_names(&v));
        return d;
    }
    d
}

fn ref_field_exec(r: AutogenRef, field: &Vec<char>) -> (o: AutogenRef)
    ensures
        o@ == ref_field(r@, field@),
{
    let mut r = r;
    if let Some(v) = strip_prefix_str(field, "scope=") {
        r.scope = parse_bracket_names(&v);
        return r;
    }
    if let Some(v) = strip_prefix_str(field, "name=") {
        r.name = parse_bracket_names(&v);
        return r;
    }
    if let Some(v) = strip_prefix_str(field, "nesting=") {
        r.nesting = parse_nesting(&v);
        return r;
    }
    if let Some(v) = strip_prefix_str(field, "resolved=") {
        r.resolved = parse_bracket_names(&v);
        return r;
    }
    if let Some(v) = strip_prefix_str(field, "loc=") {
        r.loc = string_from_chars(&v);
        return r;
    }
    if let Some(v) = strip_prefix_str(field, "is_defining_ref=") {
        r.is_defining_ref = eq_str(&v, "1");
        return r;
    }
    if let Some(v) = strip_prefix_str(field, "parent_of=") {
        r.parent_of = Some(parse_bracket_names(&v));
        return r;
    }
    r
}

fn entry_id_exec(rest: &Vec<char>) -> (r: usize)
    ensures
        r == entry_id(rest@),
{
    let t = strip_suffix_or_keep_str(rest, "]");
    match parse_usize(&t) {
        Some(n) => n,
        None => 0,
    }
}

fn autogen_step_exec(st: AutogenReader, line: &Vec<char>) -> (r: AutogenReader)
    ensures
        r@ == autogen_step(st@, line@),
{
    if let Some(path) = strip_prefix_str(line, "# ParsedFile: ") {
        let s1 = flush_exec(st);
        let AutogenReader { mut files, file, .. } = s1;
        match file {
            Some(f) => {
                let ghost prev = files@;
                let ghost fv = f@;
                files.push(f);
                assert(file_models(files@) =~= file_models(prev).push(fv));
            },
            None => {},
        }
        let nf = AutogenFile {
            path: string_from_chars(&path),
            requires: Vec::new(),
            defs: Vec::new(),
            refs: Vec::new(),
        };
        assert(str_views(nf.requires@) =~= seq![]);
        assert(def_models(nf.defs@) =~= seq![]);
        assert(ref_models(nf.refs@) =~= seq![]);
        return AutogenReader {
            files,
            file: Some(nf),
            section: Section::Outside,
            def: None,
            refb: None,
        };
    }
    if let Some(rest) = strip_prefix_str(line, "requires: ") {
        let AutogenReader { files, file, section, def, refb } = st;
        let file = match file {
            Some(mut f) => {
                f.requires = parse_bracket_list(&rest);
                Some(f)
            },
            None => None,
        };
        return AutogenReader { files, file, section, def, refb };
    }
    if eq_str(line, "## defs:") {
        let mut s1 = flush_exec(st);
        s1.section = Section::Defs;
        return s1;
    }
    if eq_str(line, "## refs:") {
        let mut s1 = flush_exec(st);
        s1.section = Section::Refs;
        return s1;
    }
    if let Some(rest) = strip_prefix_str(line, "[def id=") {
        let mut s1 = flush_exec(st);
        s1.def = Some(
            DefBuilder {
                id: entry_id_exec(&rest),
                kind: None,
                defines_behavior: false,
                is_empty: false,
                defining_ref: None,
                parent_ref: None,
                aliased_ref: None,
            },
        );
        return s1;
    }
    if let Some(rest) = strip_prefix_str(line, "[ref id=") {
        let mut s1 = flush_exec(st);
        let nr = AutogenRef {
            id: entry_id_exec(&rest),
            scope: Vec::new(),
            name: Vec::new(),
            nesting: Vec::new(),
            resolved: Vec::new(),
            loc: String::new(),
            is_defining_ref: false,
            parent_of: None,
        };
        assert(str_views(nr.scope@) =~= seq![]);
        assert(str_views(nr.name@) =~= seq![]);
        assert(nested_views(nr.nesting@) =~= seq![]);
        assert(str_views(nr.resolved@) =~= seq![]);
        s1.refb = Some(nr);
        return s1;
    }
    if let Some(field) = strip_prefix_str(line, " ") {
        let AutogenReader { files, file, section, def, refb } = st;
        return match section {
            Section::Defs => {
                let def = match def {
                    Some(d) => Some(def_field_exec(d, &field)),
                    None => None,
                };
                AutogenReader { files, file, section, def, refb }
            },
            Section::Refs => {
                let refb = match refb {
                    Some(r) => Some(ref_field_exec(r, &field)),
                    None => None,
                };
                AutogenReader { files, file, section, def, refb }
            },
            Section::Outside => AutogenReader { files, file, section, def, refb },
        };
    }
    st
}

/// Reads Sorbet's autogen output into its files, definitions and references.
/// Reading never fails: unknown lines are skipped.
pub fn parse(input: &str) -> (r: Result<Vec<AutogenFile>, AutogenParseError>)
    ensures
        r matches Ok(files) && file_models(files@) == spec_parse_autogen(input@),
{
    let chars = to_chars(input);
    let ls = lines(&chars);
    let ghost l = views(ls@);
    let mut st = AutogenReader {
        files: Vec::new(),
        file: None,
        section: Section::Outside,
        def: None,
        refb: None,
    };
    assert(st@ == initial_autogen_state()) by {
        assert(file_models(st.files@) =~= seq![]);
    }
    let mut i: usize = 0;
    while i < ls.len()
        invariant
            i <= ls.len(),
            l == views(ls@),
            l == spec_lines(input@),
            autogen_from(l, 0, initial_autogen_state()) == autogen_from(l, i as int, st@),
        decreases ls.len() - i,
    {
        assert(l[i as int] == ls@[i as int]@);
        st = autogen_step_exec(st, &ls[i]);
        i += 1;
    }
    let s1 = flush_exec(st);
    let AutogenReader { mut files, file, .. } = s1;
    match file {
        Some(f) => {
            let ghost prev = files@;
            let ghost fv = f@;
            files.push(f);
            assert(file_models(files@) =~= file_models(prev).push(fv));
        },
        None => {},
    }
    Ok(files)
}


// ---------------------------------------------------------------------------
// Laws
// ---------------------------------------------------------------------------

/// The paths of files.
pub open spec fn file_paths(fs: Seq<FileModel>) -> Seq<Seq<char>> {
    fs.map_values(|f: FileModel| f.path)
}

/// The paths of the files a reader state has opened, the current one last.
pub open spec fn opened_paths(st: AutogenState) -> Seq<Seq<char>> {
    file_paths(st.files) + match st.file {
        Some(f) => seq![f.path],
        None => seq![],
    }
}

/// The path written after `# ParsedFile: `, if the line is such a header.
pub open spec fn header_path(line: Seq<char>) -> Seq<Seq<char>> {
    match spec_strip_prefix(line, "# ParsedFile: "@) {
        Some(p) => seq![p],
        None => seq![],
    }
}

/// The paths written after `# ParsedFile: ` on the lines from `i` on.
pub open spec fn header_paths(lines: Seq<Seq<char>>, i: int) -> Seq<Seq<char>>
    decreases lines.len() - i,
{
    if i >= lines.len() || i < 0 {
        seq![]
    } else {
        header_path(lines[i]) + header_paths(lines, i + 1)
    }
}

proof fn lemma_flush_paths(st: AutogenState)
    ensures
        flush(st).files == st.files,
        flush(st).file is Some == st.file is Some,
        flush(st).file is Some ==> flush(st).file->0.path == st.file->0.path,
{
}

proof fn lemma_step_paths(st: AutogenState, line: Seq<char>)
    ensures
        opened_paths(autogen_step(st, line)) == opened_paths(st) + header_path(line),
{
    lemma_flush_paths(st);
    let s1 = flush(st);
    let out = autogen_step(st, line);
    match spec_strip_prefix(line, "# ParsedFile: "@) {
        Some(p) => {
            match s1.file {
                Some(f) => {
                    assert(file_paths(s1.files.push(f)) =~= file_paths(st.files).push(f.path));
                },
                None => {},
            }
            assert(opened_paths(out) =~= opened_paths(st) + seq![p]);
        },
        None => {
            assert(opened_paths(out) =~= opened_paths(st));
        },
    }
}

proof fn lemma_from_paths(lines: Seq<Seq<char>>, i: int, st: AutogenState)
    requires
        0 <= i <= lines.len(),
    ensures
        opened_paths(autogen_from(lines, i, st)) == opened_paths(st) + header_paths(lines, i),
    decreases lines.len() - i,
{
    if i < lines.len() {
        lemma_step_paths(st, lines[i]);
        lemma_from_paths(lines, i + 1, autogen_step(st, lines[i]));
        assert(opened_paths(st) + header_paths(lines, i) =~= opened_paths(st) + header_path(lines[i])
            + header_paths(lines, i + 1));
    } else {
        assert(opened_paths(st) + header_paths(lines, i) =~= opened_paths(st));
    }
}

/// Reading an autogen output gives one file for each `# ParsedFile: ` line,
/// in order, named by what follows `# ParsedFile: `.
pub proof fn lemma_autogen_file_paths(input: Seq<char>)
    ensures
        file_paths(spec_parse_autogen(input)) == header_paths(spec_lines(input), 0),
{
    let ls = spec_lines(input);
    let st = autogen_from(ls, 0, initial_autogen_state());
    lemma_from_paths(ls, 0, initial_autogen_state());
    assert(opened_paths(initial_autogen_state()) =~= Seq::<Seq<char>>::empty());
    lemma_flush_paths(st);
    let s1 = flush(st);
    match s1.file {
        Some(f) => {
            assert(file_paths(s1.files.push(f)) =~= opened_paths(st));
        },
        None => {
            assert(file_paths(s1.files) =~= opened_paths(st));
        },
    }
}


/// The ids of the definitions (`defs`) or of the references of a file.
pub open spec fn file_ids(f: FileModel, defs: bool) -> Seq<usize> {
    if defs {
        f.defs.map_values(|d: DefModel| d.id)
    } else {
        f.refs.map_values(|r: RefModel| r.id)
    }
}

/// The header that opens a definition (`defs`) or a reference entry.
pub open spec fn entry_prefix(defs: bool) -> Seq<char> {
    if defs {
        "[def id="@
    } else {
        "[ref id="@
    }
}

/// The ids of the entry headers among `lines` (`[def id=N]` for `defs`,
/// `[ref id=N]` otherwise), grouped by the `# ParsedFile: ` line they
/// follow; headers before the first file are dropped.
pub open spec fn entry_groups(lines: Seq<Seq<char>>, defs: bool) -> Seq<Seq<usize>>
    decreases lines.len(),
{
    if lines.len() == 0 {
        seq![]
    } else {
        let g = entry_groups(lines.drop_last(), defs);
        let l = lines.last();
        if spec_strip_prefix(l, "# ParsedFile: "@) is Some {
            g.push(seq![])
        } else if spec_strip_prefix(l, entry_prefix(defs)) is Some && g.len() > 0 {
            g.update(
                g.len() - 1,
                g.last().push(entry_id(spec_strip_prefix(l, entry_prefix(defs))->0)),
            )
        } else {
            g
        }
    }
}

/// The ids of the open entry of the given kind, if any.
pub open spec fn pending_ids(st: AutogenState, defs: bool) -> Seq<usize> {
    if defs {
        match st.def {
            Some(d) => seq![d.id],
            None => seq![],
        }
    } else {
        match st.refb {
            Some(r) => seq![r.id],
            None => seq![],
        }
    }
}

/// The entry ids a reader state holds, file by file, the open entry last.
pub open spec fn opened_ids(st: AutogenState, defs: bool) -> Seq<Seq<usize>> {
    st.files.map_values(|f: FileModel| file_ids(f, defs)) + match st.file {
        Some(f) => seq![file_ids(f, defs) + pending_ids(st, defs)],
        None => seq![],
    }
}

/// Reading the lines one by one is reading all but the last, then the last.
proof fn lemma_autogen_from_push(ls: Seq<Seq<char>>, x: Seq<char>, i: int, st: AutogenState)
    requires
        0 <= i <= ls.len(),
    ensures
        autogen_from(ls.push(x), i, st) == autogen_step(autogen_from(ls, i, st), x),
    decreases ls.len() - i,
{
    if i < ls.len() {
        assert(ls.push(x)[i] == ls[i]);
        lemma_autogen_from_push(ls, x, i + 1, autogen_step(st, ls[i]));
    } else {
        assert(ls.push(x)[i] == x);
        assert(autogen_from(ls.push(x), i + 1, autogen_step(st, x)) == autogen_step(st, x));
    }
}

/// Flushing keeps the entry ids a state holds.
proof fn lemma_flush_ids(st: AutogenState, defs: bool)
    ensures
        opened_ids(flush(st), defs) == opened_ids(st, defs),
        flush(st).files == st.files,
        flush(st).file is Some == st.file is Some,
{
    let s1 = flush(st);
    match st.file {
        Some(f) => {
            let g = s1.file->0;
            if defs {
                match st.def {
                    Some(d) => {
                        assert(file_ids(g, defs) =~= file_ids(f, defs) + pending_ids(st, defs));
                    },
                    None => {
                        assert(file_ids(g, defs) =~= file_ids(f, defs) + pending_ids(st, defs));
                    },
                }
            } else {
                match st.refb {
                    Some(r) => {
                        assert(file_ids(g, defs) =~= file_ids(f, defs) + pending_ids(st, defs));
                    },
                    None => {
                        assert(file_ids(g, defs) =~= file_ids(f, defs) + pending_ids(st, defs));
                    },
                }
            }
            assert(pending_ids(s1, defs) =~= seq![]);
            assert(opened_ids(s1, defs) =~= opened_ids(st, defs));
        },
        None => {
            assert(opened_ids(s1, defs) =~= opened_ids(st, defs));
        },
    }
}

/// A text with prefix `p` has the characters of `p` at the start.
proof fn lemma_prefix_char(s: Seq<char>, p: Seq<char>, i: int)
    requires
        crate::text::has_prefix(s, p),
        0 <= i < p.len(),
    ensures
        s[i] == p[i],
{
    assert(s.subrange(0, p.len() as int)[i] == s[i]);
}

/// One line changes the entry ids as [`entry_groups`] says.
proof fn lemma_step_ids(st: AutogenState, line: Seq<char>, defs: bool)
    requires
        st.files.len() > 0 ==> st.file is Some,
    ensures
        autogen_step(st, line).files.len() > 0 ==> autogen_step(st, line).file is Some,
        opened_ids(autogen_step(st, line), defs) == ({
            let g = opened_ids(st, defs);
            if spec_strip_prefix(line, "# ParsedFile: "@) is Some {
                g.push(seq![])
            } else if spec_strip_prefix(line, entry_prefix(defs)) is Some && g.len() > 0 {
                g.update(
                    g.len() - 1,
                    g.last().push(entry_id(spec_strip_prefix(line, entry_prefix(defs))->0)),
                )
            } else {
                g
            }
        }),
{
    reveal_strlit("# ParsedFile: ");
    reveal_strlit("requires: ");
    reveal_strlit("## defs:");
    reveal_strlit("## refs:");
    reveal_strlit("[def id=");
    reveal_strlit("[ref id=");
    reveal_strlit(" ");
    lemma_flush_ids(st, defs);
    let s1 = flush(st);
    let out = autogen_step(st, line);
    let g = opened_ids(st, defs);
    let fm = st.files.map_values(|f: FileModel| file_ids(f, defs));
    if spec_strip_prefix(line, "# ParsedFile: "@) is Some {
        match s1.file {
            Some(f) => {
                assert(s1.files.push(f).map_values(|f: FileModel| file_ids(f, defs)) =~= fm.push(
                    file_ids(f, defs),
                ));
                assert(file_ids(f, defs) =~= file_ids(f, defs) + pending_ids(s1, defs));
            },
            None => {},
        }
        assert(file_ids(out.file->0, defs) =~= seq![]);
        assert(opened_ids(out, defs) =~= g.push(seq![]));
    } else if spec_strip_prefix(line, "requires: "@) is Some {
        assert(!crate::text::has_prefix(line, entry_prefix(defs))) by {
            lemma_prefix_char(line, "requires: "@, 0);
            if crate::text::has_prefix(line, entry_prefix(defs)) {
                lemma_prefix_char(line, entry_prefix(defs), 0);
            }
        }
        match st.file {
            Some(f) => {
                assert(file_ids(out.file->0, defs) =~= file_ids(f, defs));
            },
            None => {},
        }
        assert(opened_ids(out, defs) =~= g);
    } else if line == "## defs:"@ || line == "## refs:"@ {
        assert(!crate::text::has_prefix(line, entry_prefix(defs))) by {
            if crate::text::has_prefix(line, entry_prefix(defs)) {
                lemma_prefix_char(line, entry_prefix(defs), 0);
                if line == "## defs:"@ {
                    assert(line[0] == "## defs:"@[0]);
                } else {
                    assert(line[0] == "## refs:"@[0]);
                }
            }
        }
        assert(opened_ids(out, defs) =~= opened_ids(s1, defs));
    } else if spec_strip_prefix(line, "[def id="@) is Some {
        if defs {
            match s1.file {
                Some(f) => {
                    assert(opened_ids(out, defs) =~= g.update(
                        g.len() - 1,
                        g.last().push(entry_id(spec_strip_prefix(line, entry_prefix(defs))->0)),
                    ));
                },
                None => {
                    assert(opened_ids(out, defs) =~= g);
                },
            }
        } else {
            assert(!crate::text::has_prefix(line, entry_prefix(defs))) by {
                lemma_prefix_char(line, "[def id="@, 1);
                if crate::text::has_prefix(line, entry_prefix(defs)) {
                    lemma_prefix_char(line, entry_prefix(defs), 1);
                }
            }
            assert(opened_ids(out, defs) =~= opened_ids(s1, defs));
        }
    } else if spec_strip_prefix(line, "[ref id="@) is Some {
        if !defs {
            match s1.file {
                Some(f) => {
                    assert(opened_ids(out, defs) =~= g.update(
                        g.len() - 1,
                        g.last().push(entry_id(spec_strip_prefix(line, entry_prefix(defs))->0)),
                    ));
                },
                None => {
                    assert(opened_ids(out, defs) =~= g);
                },
            }
        } else {
            assert(!crate::text::has_prefix(line, entry_prefix(defs))) by {
                lemma_prefix_char(line, "[ref id="@, 1);
                if crate::text::has_prefix(line, entry_prefix(defs)) {
                    lemma_prefix_char(line, entry_prefix(defs), 1);
                }
            }
            assert(opened_ids(out, defs) =~= opened_ids(s1, defs));
        }
    } else {
        assert(opened_ids(out, defs) =~= g);
    }
}

/// Reading lines from the start holds the entry ids of [`entry_groups`].
proof fn lemma_lines_ids(ls: Seq<Seq<char>>, defs: bool)
    ensures
        opened_ids(autogen_from(ls, 0, initial_autogen_state()), defs) == entry_groups(ls, defs),
        autogen_from(ls, 0, initial_autogen_state()).files.len() > 0 ==> autogen_from(
            ls,
            0,
            initial_autogen_state(),
        ).file is Some,
    decreases ls.len(),
{
    if ls.len() == 0 {
        assert(opened_ids(initial_autogen_state(), defs) =~= seq![]);
    } else {
        let d = ls.drop_last();
        lemma_lines_ids(d, defs);
        assert(d.push(ls.last()) == ls);
        lemma_autogen_from_push(d, ls.last(), 0, initial_autogen_state());
        lemma_step_ids(autogen_from(d, 0, initial_autogen_state()), ls.last(), defs);
    }
}

/// Reading an autogen output gives, for each file, its definitions and its
/// references in the order of their `[def id=N]` and `[ref id=N]` header
/// lines after that file's `# ParsedFile: ` line, with those ids; entries
/// before the first file are dropped.
pub proof fn lemma_autogen_entries(input: Seq<char>)
    ensures
        spec_parse_autogen(input).map_values(|f: FileModel| file_ids(f, true)) == entry_groups(
            spec_lines(input),
            true,
        ),
        spec_parse_autogen(input).map_values(|f: FileModel| file_ids(f, false)) == entry_groups(
            spec_lines(input),
            false,
        ),
{
    let ls = spec_lines(input);
    let st = autogen_from(ls, 0, initial_autogen_state());
    lemma_lines_ids(ls, true);
    lemma_lines_ids(ls, false);
    lemma_flush_ids(st, true);
    lemma_flush_ids(st, false);
    let s1 = flush(st);
    assert(pending_ids(s1, true) =~= seq![]);
    assert(pending_ids(s1, false) =~= seq![]);
    match s1.file {
        Some(f) => {
            assert(s1.files.push(f).map_values(|f: FileModel| file_ids(f, true)) =~= opened_ids(
                s1,
                true,
            ));
            assert(s1.files.push(f).map_values(|f: FileModel| file_ids(f, false)) =~= opened_ids(
                s1,
                false,
            ));
        },
        None => {
            assert(s1.files.map_values(|f: FileModel| file_ids(f, true)) =~= opened_ids(s1, true));
            assert(s1.files.map_values(|f: FileModel| file_ids(f, false)) =~= opened_ids(s1, false));
        },
    }
}

} // verus!

//! The joined picture of a project: its classes and methods, and the
//! queries over them.
use vstd::prelude::*;

use crate::parse_tree::{LocModel, MethodLoc};
use crate::sorbet_type::{SorbetType, TypeModel};
use crate::text::{
    append_str, ends_with, find_char, first_where, has_prefix, has_suffix, lemma_find_occurs,
    lemma_first_where, opt_int, skip, spec_find, starts_with, str_eq, string_from_chars, take,
    to_chars, trim_start, trim_start_chars, strip_prefix_or_keep, strip_prefix_or_keep_str,
    chars_eq, spec_lines, lines,
};

verus! {

broadcast use {vstd::seq_lib::group_seq_properties, vstd::string::group_string_axioms};

// ---------------------------------------------------------------------------
// Types
// ---------------------------------------------------------------------------

/// Whether a method is called on instances or on the class itself.
#[derive(Debug, Clone, Copy, PartialEq, Eq, Hash, Structural)]
pub enum MethodKind {
    Instance,
    Class,
}

/// The fully qualified name of a method.
#[derive(Debug, Clone, PartialEq, Eq, Hash)]
pub struct MethodFqn {
    pub class_fqn: String,
    pub method_name: String,
    pub kind: MethodKind,
}

/// A class or module.
#[derive(Debug, Clone)]
pub struct ClassInfo {
    pub fqn: String,
    pub is_module: bool,
    pub super_class: Option<String>,
    pub mixins: Vec<String>,
    pub method_fqns: Vec<MethodFqn>,
    pub file_path: Option<String>,
    pub line: Option<usize>,
}

/// A method, with what its control-flow graph tells about it.
#[derive(Debug)]
pub struct MethodInfo {
    pub fqn: MethodFqn,
    pub file_path: Option<String>,
    pub line: Option<usize>,
    pub arguments: Vec<Argument>,
    pub return_type: Option<SorbetType>,
    pub calls: Vec<MethodCall>,
    pub ivars: Vec<IvarAccess>,
    pub rescues: Vec<String>,
    pub uses_block: bool,
    pub basic_blocks: Vec<BasicBlock>,
}

/// A basic block of a method's control-flow graph.
#[derive(Debug)]
pub struct BasicBlock {
    pub id: usize,
    pub terminator: Terminator,
}

/// How control leaves a basic block.
#[derive(Debug)]
pub enum Terminator {
    /// An unconditional jump.
    Goto(usize),
    /// A conditional branch, with the condition in readable form.
    Branch { condition: String, true_bb: usize, false_bb: usize },
    /// A call of the method's block (`yield`).
    BlockCall { true_bb: usize, false_bb: usize },
    /// A return from the method.
    Return,
}

/// The kinds of Ruby method parameters.
#[derive(Debug, Clone, Copy, PartialEq, Eq, Hash, Structural)]
pub enum ArgumentKind {
    Req,
    Opt,
    Rest,
    KeyReq,
    Key,
    KeyRest,
    Block,
}

/// A method parameter.
#[derive(Debug)]
pub struct Argument {
    pub name: String,
    pub ty: SorbetType,
    pub is_optional: bool,
}

/// A method call made by a method.
#[derive(Debug)]
pub struct MethodCall {
    pub receiver_type: SorbetType,
    pub method_name: String,
    pub return_type: SorbetType,
    pub bb_id: usize,
    pub conditions: Vec<BranchCondition>,
}

/// A branch taken on the way to a call.
#[derive(Debug)]
pub struct BranchCondition {
    pub call: String,
    pub is_true: bool,
}

/// An instance variable read by a method.
#[derive(Debug)]
pub struct IvarAccess {
    pub name: String,
    pub ty: SorbetType,
}

/// The classes of a project, one entry per fully qualified name, in the
/// order they were first inserted.
#[derive(Debug)]
pub struct ClassTable {
    entries: Vec<ClassInfo>,
}

/// Everything known of a project.
#[derive(Debug)]
pub struct Project {
    pub classes: ClassTable,
    pub methods: Vec<MethodInfo>,
}

// ---------------------------------------------------------------------------
// Models
// ---------------------------------------------------------------------------

/// Model of a [`MethodFqn`].
pub struct FqnModel {
    pub class_fqn: Seq<char>,
    pub method_name: Seq<char>,
    pub kind: MethodKind,
}

/// Model of a [`ClassInfo`].
pub struct ClassModel {
    pub fqn: Seq<char>,
    pub is_module: bool,
    pub super_class: Option<Seq<char>>,
    pub mixins: Seq<Seq<char>>,
    pub method_fqns: Seq<FqnModel>,
    pub file_path: Option<Seq<char>>,
    pub line: Option<usize>,
}

/// Model of an [`Argument`].
pub struct ArgModel {
    pub name: Seq<char>,
    pub ty: TypeModel,
    pub is_optional: bool,
}

/// Model of a [`BranchCondition`].
pub struct CondModel {
    pub call: Seq<char>,
    pub is_true: bool,
}

/// Model of a [`MethodCall`].
pub struct CallModel {
    pub receiver_type: TypeModel,
    pub method_name: Seq<char>,
    pub return_type: TypeModel,
    pub bb_id: usize,
    pub conditions: Seq<CondModel>,
}

/// Model of an [`IvarAccess`].
pub struct IvarModel {
    pub name: Seq<char>,
    pub ty: TypeModel,
}

/// Model of a [`Terminator`].
pub enum TermView {
    Goto(usize),
    Branch { condition: Seq<char>, true_bb: usize, false_bb: usize },
    BlockCall { true_bb: usize, false_bb: usize },
    Return,
}

/// Model of a [`BasicBlock`].
pub struct BlockView {
    pub id: usize,
    pub terminator: TermView,
}

/// Model of a [`MethodInfo`].
pub struct InfoModel {
    pub fqn: FqnModel,
    pub file_path: Option<Seq<char>>,
    pub line: Option<usize>,
    pub arguments: Seq<ArgModel>,
    pub return_type: Option<TypeModel>,
    pub calls: Seq<CallModel>,
    pub ivars: Seq<IvarModel>,
    pub rescues: Seq<Seq<char>>,
    pub uses_block: bool,
    pub basic_blocks: Seq<BlockView>,
}

/// Model of a [`Project`].
pub struct ProjectModel {
    pub classes: Seq<ClassModel>,
    pub methods: Seq<InfoModel>,
}

/// The text of an optional string.
pub open spec fn opt_text(o: Option<String>) -> Option<Seq<char>> {
    match o {
        Some(s) => Some(s@),
        None => None,
    }
}

/// The model of an optional type.
pub open spec fn opt_type(o: Option<SorbetType>) -> Option<TypeModel> {
    match o {
        Some(t) => Some(t@),
        None => None,
    }
}

/// Texts of strings.
pub open spec fn texts(v: Seq<String>) -> Seq<Seq<char>> {
    v.map_values(|s: String| s@)
}

/// Models of method names.
pub open spec fn fqn_models(v: Seq<MethodFqn>) -> Seq<FqnModel> {
    v.map_values(|f: MethodFqn| f@)
}

/// Models of classes.
pub open spec fn class_models(v: Seq<ClassInfo>) -> Seq<ClassModel> {
    v.map_values(|c: ClassInfo| c@)
}

/// Models of arguments.
pub open spec fn arg_models(v: Seq<Argument>) -> Seq<ArgModel> {
    v.map_values(|a: Argument| a@)
}

/// Models of branch conditions.
pub open spec fn cond_models(v: Seq<BranchCondition>) -> Seq<CondModel> {
    v.map_values(|c: BranchCondition| c@)
}

/// Models of calls.
pub open spec fn call_models(v: Seq<MethodCall>) -> Seq<CallModel> {
    v.map_values(|c: MethodCall| c@)
}

/// Models of instance variable reads.
pub open spec fn ivar_models(v: Seq<IvarAccess>) -> Seq<IvarModel> {
    v.map_values(|x: IvarAccess| x@)
}

/// Models of basic blocks.
pub open spec fn block_views(v: Seq<BasicBlock>) -> Seq<BlockView> {
    v.map_values(|b: BasicBlock| b@)
}

/// Models of methods.
pub open spec fn info_models(v: Seq<MethodInfo>) -> Seq<InfoModel> {
    v.map_values(|m: MethodInfo| m@)
}

/// Models of borrowed methods.
pub open spec fn info_ref_models(v: Seq<&MethodInfo>) -> Seq<InfoModel> {
    v.map_values(|m: &MethodInfo| m@)
}

/// Models of borrowed classes.
pub open spec fn class_ref_models(v: Seq<&ClassInfo>) -> Seq<ClassModel> {
    v.map_values(|c: &ClassInfo| c@)
}

impl View for MethodFqn {
    type V = FqnModel;

    open spec fn view(&self) -> FqnModel {
        FqnModel { class_fqn: self.class_fqn@, method_name: self.method_name@, kind: self.kind }
    }
}

impl View for ClassInfo {
    type V = ClassModel;

    open spec fn view(&self) -> ClassModel {
        ClassModel {
            fqn: self.fqn@,
            is_module: self.is_module,
            super_class: opt_text(self.super_class),
            mixins: texts(self.mixins@),
            method_fqns: fqn_models(self.method_fqns@),
            file_path: opt_text(self.file_path),
            line: self.line,
        }
    }
}

impl View for Argument {
    type V = ArgModel;

    open spec fn view(&self) -> ArgModel {
        ArgModel { name: self.name@, ty: self.ty@, is_optional: self.is_optional }
    }
}

impl View for BranchCondition {
    type V = CondModel;

    open spec fn view(&self) -> CondModel {
        CondModel { call: self.call@, is_true: self.is_true }
    }
}

impl View for MethodCall {
    type V = CallModel;

    open spec fn view(&self) -> CallModel {
        CallModel {
            receiver_type: self.receiver_type@,
            method_name: self.method_name@,
            return_type: self.return_type@,
            bb_id: self.bb_id,
            conditions: cond_models(self.conditions@),
        }
    }
}

impl View for IvarAccess {
    type V = IvarModel;

    open spec fn view(&self) -> IvarModel {
        IvarModel { name: self.name@, ty: self.ty@ }
    }
}

impl View for Terminator {
    type V = TermView;

    open spec fn view(&self) -> TermView {
        match self {
            Terminator::Goto(t) => TermView::Goto(*t),
            Terminator::Branch { condition, true_bb, false_bb } => TermView::Branch {
                condition: condition@,
                true_bb: *true_bb,
                false_bb: *false_bb,
            },
            Terminator::BlockCall { true_bb, false_bb } => TermView::BlockCall {
                true_bb: *true_bb,
                false_bb: *false_bb,
            },
            Terminator::Return => TermView::Return,
        }
    }
}

impl View for BasicBlock {
    type V = BlockView;

    open spec fn view(&self) -> BlockView {
        BlockView { id: self.id, terminator: self.terminator@ }
    }
}

impl View for MethodInfo {
    type V = InfoModel;

    open spec fn view(&self) -> InfoModel {
        InfoModel {
            fqn: self.fqn@,
            file_path: opt_text(self.file_path),
            line: self.line,
            arguments: arg_models(self.arguments@),
            return_type: opt_type(self.return_type),
            calls: call_models(self.calls@),
            ivars: ivar_models(self.ivars@),
            rescues: texts(self.rescues@),
            uses_block: self.uses_block,
            basic_blocks: block_views(self.basic_blocks@),
        }
    }
}

impl View for ClassTable {
    type V = Seq<ClassModel>;

    closed spec fn view(&self) -> Seq<ClassModel> {
        class_models(self.entries@)
    }
}

impl View for Project {
    type V = ProjectModel;

    open spec fn view(&self) -> ProjectModel {
        ProjectModel { classes: self.classes@, methods: info_models(self.methods@) }
    }
}

// ---------------------------------------------------------------------------
// Method names
// ---------------------------------------------------------------------------

/// The separator between class and method: `#` for instance methods, `.`
/// for class methods.
pub open spec fn kind_sep(k: MethodKind) -> Seq<char> {
    match k {
        MethodKind::Instance => seq!['#'],
        MethodKind::Class => seq!['.'],
    }
}

/// `Class#method` or `Class.method`.
pub open spec fn fqn_text(f: FqnModel) -> Seq<char> {
    f.class_fqn + kind_sep(f.kind) + f.method_name
}

impl MethodFqn {
    /// `Class#method` for an instance method, `Class.method` for a class
    /// method.
    pub fn to_string(&self) -> (r: String)
        ensures
            r@ == fqn_text(self@),
    {
        let mut v = to_chars(self.class_fqn.as_str());
        match self.kind {
            MethodKind::Instance => append_str(&mut v, "#"),
            MethodKind::Class => append_str(&mut v, "."),
        }
        proof {
            reveal_strlit("#");
            reveal_strlit(".");
        }
        append_str(&mut v, self.method_name.as_str());
        string_from_chars(&v)
    }

    /// A copy of this name.
    pub fn copy(&self) -> (r: MethodFqn)
        ensures
            r@ == self@,
    {
        MethodFqn {
            class_fqn: self.class_fqn.clone(),
            method_name: self.method_name.clone(),
            kind: self.kind,
        }
    }
}

// ---------------------------------------------------------------------------
// The class table
// ---------------------------------------------------------------------------

/// Position of the entry named `k`.
pub open spec fn class_index(cs: Seq<ClassModel>, k: Seq<char>) -> Option<int> {
    first_where(cs.len() as int, |i: int| cs[i].fqn == k, 0)
}

/// The entry named `k`.
pub open spec fn lookup(cs: Seq<ClassModel>, k: Seq<char>) -> Option<ClassModel> {
    match class_index(cs, k) {
        Some(i) => Some(cs[i]),
        None => None,
    }
}

/// `cs` with `c` stored under its name: the entry of that name is replaced
/// in place, or `c` is added at the end.
pub open spec fn table_insert(cs: Seq<ClassModel>, c: ClassModel) -> Seq<ClassModel> {
    match class_index(cs, c.fqn) {
        Some(i) => cs.update(i, c),
        None => cs.push(c),
    }
}

/// No two entries share a name.
pub open spec fn unique_names(cs: Seq<ClassModel>) -> bool {
    forall|i: int, j: int| 0 <= i < j < cs.len() ==> cs[i].fqn != cs[j].fqn
}

/// What the entry named `k` is, and that no earlier entry has that name.
pub proof fn lemma_class_index(cs: Seq<ClassModel>, k: Seq<char>)
    ensures
        class_index(cs, k) matches Some(i) ==> 0 <= i < cs.len() && cs[i].fqn == k && forall|
            j: int,
        | 0 <= j < i ==> cs[j].fqn != k,
        class_index(cs, k) is None ==> forall|j: int| 0 <= j < cs.len() ==> cs[j].fqn != k,
{
    let p = |i: int| cs[i].fqn == k;
    lemma_first_where(cs.len() as int, p, 0);
    if class_index(cs, k) is None {
        assert forall|j: int| 0 <= j < cs.len() implies cs[j].fqn != k by {
            assert(!p(j));
        }
    } else {
        let i = class_index(cs, k).unwrap();
        assert forall|j: int| 0 <= j < i implies cs[j].fqn != k by {
            assert(!p(j));
        }
    }
}

/// The entry of a given name is where `class_index` says.
proof fn lemma_class_index_at(cs: Seq<ClassModel>, k: Seq<char>, i: int)
    requires
        0 <= i < cs.len(),
        cs[i].fqn == k,
        forall|j: int| 0 <= j < i ==> cs[j].fqn != k,
    ensures
        class_index(cs, k) == Some(i),
{
    lemma_class_index(cs, k);
}

/// Storing a class finds it again under its name, leaves every other name
/// as it was, and keeps one entry per name.
pub proof fn lemma_table_insert(cs: Seq<ClassModel>, c: ClassModel, k: Seq<char>)
    ensures
        lookup(table_insert(cs, c), c.fqn) == Some(c),
        k != c.fqn ==> lookup(table_insert(cs, c), k) == lookup(cs, k),
        unique_names(cs) ==> unique_names(table_insert(cs, c)),
{
    let t = table_insert(cs, c);
    lemma_class_index(cs, c.fqn);
    lemma_class_index(cs, k);
    lemma_class_index(t, c.fqn);
    lemma_class_index(t, k);
    match class_index(cs, c.fqn) {
        Some(i) => {
            assert(t[i] == c);
            lemma_class_index_at(t, c.fqn, i);
            if k != c.fqn {
                match class_index(cs, k) {
                    Some(j) => {
                        lemma_class_index_at(t, k, j);
                    },
                    None => {
                        assert forall|j: int| 0 <= j < t.len() implies t[j].fqn != k by {
                            if j != i {
                                assert(t[j] == cs[j]);
                            }
                        }
                        assert(class_index(t, k) is None);
                    },
                }
            }
        },
        None => {
            lemma_class_index_at(t, c.fqn, cs.len() as int);
            if k != c.fqn {
                match class_index(cs, k) {
                    Some(j) => {
                        lemma_class_index_at(t, k, j);
                    },
                    None => {
                        assert(class_index(t, k) is None);
                    },
                }
            }
        },
    }
}

impl ClassTable {
    /// No class name occurs twice in the table.
    #[verifier::type_invariant]
    spec fn names_unique(self) -> bool {
        unique_names(class_models(self.entries@))
    }

    /// An empty table.
    pub fn new() -> (t: ClassTable)
        ensures
            t@ == Seq::<ClassModel>::empty(),
    {
        let t = ClassTable { entries: Vec::new() };
        assert(t@ =~= Seq::<ClassModel>::empty());
        t
    }

    /// The number of classes.
    pub fn len(&self) -> (r: usize)
        ensures
            r == self@.len(),
            unique_names(self@),
    {
        proof {
            use_type_invariant(self);
        }
        self.entries.len()
    }

    /// The classes, in table order; no name occurs twice.
    pub fn values(&self) -> (r: &Vec<ClassInfo>)
        ensures
            class_models(r@) == self@,
            unique_names(self@),
    {
        proof {
            use_type_invariant(self);
        }
        &self.entries
    }

    /// Position of the class named `fqn`.
    pub fn index_of(&self, fqn: &str) -> (r: Option<usize>)
        ensures
            opt_int(r) == class_index(self@, fqn@),
    {
        proof {
            lemma_class_index(self@, fqn@);
        }
        let mut i: usize = 0;
        while i < self.entries.len()
            invariant
                i <= self.entries.len(),
                forall|j: int| 0 <= j < i ==> self@[j].fqn != fqn@,
            decreases self.entries.len() - i,
        {
            if str_eq(self.entries[i].fqn.as_str(), fqn) {
                proof {
                    lemma_class_index_at(self@, fqn@, i as int);
                }
                return Some(i);
            }
            i += 1;
        }
        None
    }

    /// The class named `fqn`.
    pub fn get(&self, fqn: &str) -> (r: Option<&ClassInfo>)
        ensures
            match lookup(self@, fqn@) {
                Some(c) => r matches Some(x) && x@ == c,
                None => r is None,
            },
    {
        proof {
            lemma_class_index(self@, fqn@);
        }
        match self.index_of(fqn) {
            Some(i) => Some(&self.entries[i]),
            None => None,
        }
    }

    /// Stores `info` under its name, replacing the class of that name.
    pub fn insert(&mut self, info: ClassInfo)
        ensures
            final(self)@ == table_insert(old(self)@, info@),
    {
        proof {
            use_type_invariant(&*self);
            lemma_class_index(self@, info.fqn@);
            lemma_table_insert(self@, info@, info.fqn@);
        }
        let ghost before = self@;
        let found = self.index_of(info.fqn.as_str());
        let mut entries: Vec<ClassInfo> = Vec::new();
        std::mem::swap(&mut entries, &mut self.entries);
        assert(class_models(entries@) == before);
        match found {
            Some(i) => {
                entries.set(i, info);
            },
            None => {
                entries.push(info);
            },
        }
        assert(class_models(entries@) =~= table_insert(before, info@));
        self.entries = entries;
    }

    /// Records where class `i` is defined: `path`, and `line` when given.
    pub fn set_location(&mut self, i: usize, path: String, line: Option<usize>)
        requires
            i < old(self)@.len(),
        ensures
            final(self)@ == old(self)@.update(
                i as int,
                ClassModel {
                    file_path: Some(path@),
                    line: match line {
                        Some(l) => Some(l),
                        None => old(self)@[i as int].line,
                    },
                    ..old(self)@[i as int]
                },
            ),
    {
        proof {
            use_type_invariant(&*self);
        }
        let mut entries: Vec<ClassInfo> = Vec::new();
        std::mem::swap(&mut entries, &mut self.entries);
        let mut c = entries.remove(i);
        c.file_path = Some(path);
        match line {
            Some(l) => {
                c.line = Some(l);
            },
            None => {},
        }
        entries.insert(i, c);
        assert(class_models(entries@) =~= old(self)@.update(
            i as int,
            ClassModel {
                file_path: Some(path@),
                line: match line {
                    Some(l) => Some(l),
                    None => old(self)@[i as int].line,
                },
                ..old(self)@[i as int]
            },
        ));
        self.entries = entries;
    }

    /// Adds `f` to the methods of class `i`.
    pub fn push_method(&mut self, i: usize, f: MethodFqn)
        requires
            i < old(self)@.len(),
        ensures
            final(self)@ == old(self)@.update(
                i as int,
                ClassModel {
                    method_fqns: old(self)@[i as int].method_fqns.push(f@),
                    ..old(self)@[i as int]
                },
            ),
    {
        proof {
            use_type_invariant(&*self);
        }
        let mut entries: Vec<ClassInfo> = Vec::new();
        std::mem::swap(&mut entries, &mut self.entries);
        let mut c = entries.remove(i);
        c.method_fqns.push(f);
        entries.insert(i, c);
        assert(class_models(entries@)[i as int].method_fqns =~= old(self)@[i as int].method_fqns.push(f@));
        assert(class_models(entries@) =~= old(self)@.update(
            i as int,
            ClassModel {
                method_fqns: old(self)@[i as int].method_fqns.push(f@),
                ..old(self)@[i as int]
            },
        ));
        self.entries = entries;
    }
}


// ---------------------------------------------------------------------------
// Queries
// ---------------------------------------------------------------------------

/// A method is kept: of kind `kind` and named `name` when a kind is given,
/// and of the class named `class` (when `exact`) or of a class whose name
/// ends with `class`.
pub open spec fn method_selected(
    m: InfoModel,
    kind: Option<MethodKind>,
    name: Seq<char>,
    class: Seq<char>,
    exact: bool,
) -> bool {
    &&& (kind matches Some(k) ==> m.fqn.kind == k && m.fqn.method_name == name)
    &&& if exact {
        m.fqn.class_fqn == class
    } else {
        has_suffix(m.fqn.class_fqn, class)
    }
}

/// The methods that are kept, in order.
pub open spec fn select_methods(
    ms: Seq<InfoModel>,
    kind: Option<MethodKind>,
    name: Seq<char>,
    class: Seq<char>,
    exact: bool,
) -> Seq<InfoModel>
    decreases ms.len(),
{
    if ms.len() == 0 {
        seq![]
    } else {
        let rest = select_methods(ms.drop_last(), kind, name, class, exact);
        if method_selected(ms.last(), kind, name, class, exact) {
            rest.push(ms.last())
        } else {
            rest
        }
    }
}

/// The classes whose name ends with `q`, in table order.
pub open spec fn select_classes(cs: Seq<ClassModel>, q: Seq<char>) -> Seq<ClassModel>
    decreases cs.len(),
{
    if cs.len() == 0 {
        seq![]
    } else {
        let rest = select_classes(cs.drop_last(), q);
        if has_suffix(cs.last().fqn, q) {
            rest.push(cs.last())
        } else {
            rest
        }
    }
}

/// The names in a class table.
pub open spec fn names_of(cs: Seq<ClassModel>) -> Seq<Seq<char>> {
    cs.map_values(|c: ClassModel| c.fqn)
}

/// The set of names in a class table.
pub open spec fn class_names(cs: Seq<ClassModel>) -> Set<Seq<char>> {
    names_of(cs).to_set()
}

/// Following a superclass link from a class in the table leaves one name
/// fewer to visit.
pub proof fn lemma_chain_step(cs: Seq<ClassModel>, s: Seq<char>, visited: Set<Seq<char>>)
    requires
        lookup(cs, s) is Some,
        !visited.contains(s),
    ensures
        class_names(cs).difference(visited.insert(s)).len() < class_names(cs).difference(
            visited,
        ).len(),
{
    broadcast use {vstd::set::group_set_axioms, vstd::seq_lib::seq_to_set_is_finite};

    lemma_class_index(cs, s);
    let i = class_index(cs, s).unwrap();
    assert(names_of(cs)[i] == s);
    assert(class_names(cs).contains(s));
    let d = class_names(cs).difference(visited);
    assert(d.contains(s));
    assert(class_names(cs).difference(visited.insert(s)) =~= d.remove(s));
}

/// The methods of kind `kind` named `name` found first along the superclass
/// chain that starts at `s`: the methods of `s` itself if it has any, else
/// those found from the superclass of `s`. The walk stops at a class that is
/// not in the table, at one without a superclass, and at a name seen before.
pub open spec fn chain_methods(
    p: ProjectModel,
    s: Seq<char>,
    kind: MethodKind,
    name: Seq<char>,
    visited: Set<Seq<char>>,
) -> Seq<InfoModel>
    decreases class_names(p.classes).difference(visited).len(),
{
    if visited.contains(s) {
        seq![]
    } else {
        let found = select_methods(p.methods, Some(kind), name, s, true);
        if found.len() > 0 {
            found
        } else {
            match lookup(p.classes, s) {
                Some(c) => match c.super_class {
                    Some(n) => {
                        proof {
                            lemma_chain_step(p.classes, s, visited);
                        }
                        chain_methods(p, n, kind, name, visited.insert(s))
                    },
                    None => seq![],
                },
                None => seq![],
            }
        }
    }
}

/// The inherited methods of kind `kind` named `name` for the classes whose
/// name ends with `class`, from entry `i` on: the first class, in table
/// order, whose superclass chain yields any.
pub open spec fn inherited_from(
    p: ProjectModel,
    class: Seq<char>,
    kind: MethodKind,
    name: Seq<char>,
    i: int,
) -> Seq<InfoModel>
    decreases p.classes.len() - i,
{
    if i < 0 || i >= p.classes.len() {
        seq![]
    } else {
        let c = p.classes[i];
        let found = if has_suffix(c.fqn, class) {
            match c.super_class {
                Some(s) => chain_methods(p, s, kind, name, Set::empty()),
                None => seq![],
            }
        } else {
            seq![]
        };
        if found.len() > 0 {
            found
        } else {
            inherited_from(p, class, kind, name, i + 1)
        }
    }
}

/// The methods named `name` of kind `kind` of the classes whose name ends
/// with `class`; when there are none, the inherited ones.
pub open spec fn own_or_inherited(
    p: ProjectModel,
    class: Seq<char>,
    name: Seq<char>,
    kind: MethodKind,
) -> Seq<InfoModel> {
    let direct = select_methods(p.methods, Some(kind), name, class, false);
    if direct.len() > 0 {
        direct
    } else {
        inherited_from(p, class, kind, name, 0)
    }
}

/// `q` split at the first `c`.
pub open spec fn split_at_char(q: Seq<char>, c: char) -> Option<(Seq<char>, Seq<char>)> {
    match spec_find(q, seq![c]) {
        Some(i) => Some((q.take(i), q.skip(i + 1))),
        None => None,
    }
}

/// What a query finds: `Class#name` instance methods, `Class.name` class
/// methods, and a bare `Class` every method of the classes whose name ends
/// with it.
pub open spec fn spec_find_methods(p: ProjectModel, q: Seq<char>) -> Seq<InfoModel> {
    match split_at_char(q, '#') {
        Some((c, m)) => own_or_inherited(p, c, m, MethodKind::Instance),
        None => match split_at_char(q, '.') {
            Some((c, m)) => own_or_inherited(p, c, m, MethodKind::Class),
            None => select_methods(p.methods, None, Seq::empty(), q, false),
        },
    }
}

/// Whether a method is kept, as [`method_selected`] says.
fn method_matches(
    m: &MethodInfo,
    kind: Option<MethodKind>,
    name: &Vec<char>,
    class: &Vec<char>,
    exact: bool,
) -> (r: bool)
    ensures
        r == method_selected(m@, kind, name@, class@, exact),
{
    match kind {
        Some(k) => {
            if m.fqn.kind != k {
                return false;
            }
            let mn = to_chars(m.fqn.method_name.as_str());
            if !chars_eq(&mn, name) {
                return false;
            }
        },
        None => {},
    }
    let cn = to_chars(m.fqn.class_fqn.as_str());
    if exact {
        chars_eq(&cn, class)
    } else {
        ends_with(&cn, class)
    }
}

impl Default for Project {
    /// An empty project.
    fn default() -> (p: Project)
        ensures
            p@.classes == Seq::<ClassModel>::empty(),
            p@.methods == Seq::<InfoModel>::empty(),
    {
        Project::new()
    }
}

impl Project {
    /// An empty project.
    pub fn new() -> (p: Project)
        ensures
            p@.classes == Seq::<ClassModel>::empty(),
            p@.methods == Seq::<InfoModel>::empty(),
    {
        let p = Project { classes: ClassTable::new(), methods: Vec::new() };
        assert(p@.methods =~= Seq::<InfoModel>::empty());
        p
    }

    /// The methods that are kept, in order.
    fn select(&self, kind: Option<MethodKind>, name: &Vec<char>, class: &Vec<char>, exact: bool) -> (r:
        Vec<&MethodInfo>)
        ensures
            info_ref_models(r@) == select_methods(self@.methods, kind, name@, class@, exact),
    {
        let mut r: Vec<&MethodInfo> = Vec::new();
        let mut i: usize = 0;
        while i < self.methods.len()
            invariant
                i <= self.methods.len(),
                info_ref_models(r@) == select_methods(
                    self@.methods.take(i as int),
                    kind,
                    name@,
                    class@,
                    exact,
                ),
            decreases self.methods.len() - i,
        {
            assert(self@.methods.take(i + 1).drop_last() == self@.methods.take(i as int));
            let m = &self.methods[i];
            if method_matches(m, kind, name, class, exact) {
                r.push(m);
            }
            assert(info_ref_models(r@) == select_methods(
                self@.methods.take(i + 1),
                kind,
                name@,
                class@,
                exact,
            ));
            i += 1;
        }
        assert(self@.methods.take(self.methods.len() as int) == self@.methods);
        r
    }

    /// The methods found along the superclass chain that starts at `start`.
    fn chain(&self, start: &Vec<char>, kind: MethodKind, name: &Vec<char>) -> (r: Vec<
        &MethodInfo,
    >)
        ensures
            info_ref_models(r@) == chain_methods(self@, start@, kind, name@, Set::empty()),
    {
        let mut visited: Vec<Vec<char>> = Vec::new();
        let mut cur: Vec<char> = take(start, start.len());
        assert(crate::text::views(visited@).to_set() =~= Set::<Seq<char>>::empty());
        loop
            invariant
                chain_methods(self@, start@, kind, name@, Set::empty()) == chain_methods(
                    self@,
                    cur@,
                    kind,
                    name@,
                    crate::text::views(visited@).to_set(),
                ),
            decreases class_names(self@.classes).difference(
                crate::text::views(visited@).to_set(),
            ).len(),
        {
            let ghost vs = crate::text::views(visited@).to_set();
            if crate::text::contains_chars(&visited, &cur) {
                return Vec::new();
            }
            let found = self.select(Some(kind), name, &cur, true);
            if found.len() > 0 {
                return found;
            }
            let cs = string_from_chars(&cur);
            match self.classes.get(cs.as_str()) {
                Some(c) => match &c.super_class {
                    Some(n) => {
                        proof {
                            lemma_chain_step(self@.classes, cur@, vs);
                        }
                        let next = to_chars(n.as_str());
                        let ghost old_views = crate::text::views(visited@);
                        let ghost cv = cur@;
                        visited.push(cur);
                        cur = next;
                        proof {
                            assert(crate::text::views(visited@) =~= old_views.push(cv));
                            old_views.lemma_push_to_set_commute(cv);
                        }
                    },
                    None => {
                        return Vec::new();
                    },
                },
                None => {
                    return Vec::new();
                },
            }
        }
    }

    /// The inherited methods of kind `kind` named `name` for the classes
    /// whose name ends with `class`.
    fn find_inherited_method(&self, class: &Vec<char>, name: &Vec<char>, kind: MethodKind) -> (r:
        Vec<&MethodInfo>)
        ensures
            info_ref_models(r@) == inherited_from(self@, class@, kind, name@, 0),
    {
        let classes = self.classes.values();
        let mut i: usize = 0;
        while i < classes.len()
            invariant
                i <= classes.len(),
                class_models(classes@) == self@.classes,
                inherited_from(self@, class@, kind, name@, 0) == inherited_from(
                    self@,
                    class@,
                    kind,
                    name@,
                    i as int,
                ),
            decreases classes.len() - i,
        {
            let c = &classes[i];
            let cn = to_chars(c.fqn.as_str());
            if ends_with(&cn, class) {
                match &c.super_class {
                    Some(s) => {
                        let sv = to_chars(s.as_str());
                        let found = self.chain(&sv, kind, name);
                        if found.len() > 0 {
                            return found;
                        }
                    },
                    None => {},
                }
            }
            i += 1;
        }
        Vec::new()
    }

    /// The methods a query names: `Foo#bar` the instance methods `bar` and
    /// `Foo.bar` the class methods `bar` of the classes whose name ends with
    /// `Foo` (when there are none, those inherited along the superclass
    /// chain), and `Foo` every method of those classes.
    pub fn find_methods(&self, query: &str) -> (r: Vec<&MethodInfo>)
        ensures
            info_ref_models(r@) == spec_find_methods(self@, query@),
    {
        let q = to_chars(query);
        let empty: Vec<char> = Vec::new();
        match find_char(&q, '#') {
            Some(i) => {
                proof {
                    lemma_find_occurs(q@, seq!['#']);
                }
                let c = take(&q, i);
                let m = skip(&q, i + 1);
                let direct = self.select(Some(MethodKind::Instance), &m, &c, false);
                if direct.len() > 0 {
                    return direct;
                }
                self.find_inherited_method(&c, &m, MethodKind::Instance)
            },
            None => match find_char(&q, '.') {
                Some(i) => {
                    proof {
                        lemma_find_occurs(q@, seq!['.']);
                        assert(seq!['.'].len() == 1);
                    }
                    let n = q.len();
                    assert(i < n);
                    let c = take(&q, i);
                    let m = skip(&q, i + 1);
                    let direct = self.select(Some(MethodKind::Class), &m, &c, false);
                    if direct.len() > 0 {
                        return direct;
                    }
                    self.find_inherited_method(&c, &m, MethodKind::Class)
                },
                None => self.select(None, &empty, &q, false),
            },
        }
    }

    /// The classes whose name ends with `query`.
    pub fn find_classes(&self, query: &str) -> (r: Vec<&ClassInfo>)
        ensures
            class_ref_models(r@) == select_classes(self@.classes, query@),
    {
        let q = to_chars(query);
        let classes = self.classes.values();
        let mut r: Vec<&ClassInfo> = Vec::new();
        let mut i: usize = 0;
        while i < classes.len()
            invariant
                i <= classes.len(),
                class_models(classes@) == self@.classes,
                class_ref_models(r@) == select_classes(self@.classes.take(i as int), q@),
            decreases classes.len() - i,
        {
            assert(self@.classes.take(i + 1).drop_last() == self@.classes.take(i as int));
            let c = &classes[i];
            let cn = to_chars(c.fqn.as_str());
            if ends_with(&cn, &q) {
                r.push(c);
            }
            assert(class_ref_models(r@) == select_classes(self@.classes.take(i + 1), q@));
            i += 1;
        }
        assert(self@.classes.take(classes.len() as int) == self@.classes);
        r
    }
}


// ---------------------------------------------------------------------------
// Source locations
// ---------------------------------------------------------------------------

/// A path without a leading `./`.
pub open spec fn norm_path(p: Seq<char>) -> Seq<char> {
    strip_prefix_or_keep(p, "./"@)
}

/// A location names method `m` in file `file`: the same path once a leading
/// `./` is dropped from both, the same method name and the same kind.
pub open spec fn loc_matches(l: LocModel, file: Seq<char>, m: FqnModel) -> bool {
    &&& norm_path(l.file) == norm_path(file)
    &&& l.name == m.method_name
    &&& l.is_class_method == (m.kind == MethodKind::Class)
}

/// Position of the first location of method `m` in `file`.
pub open spec fn loc_index(locs: Seq<LocModel>, file: Seq<char>, m: FqnModel) -> Option<int> {
    first_where(locs.len() as int, |j: int| loc_matches(locs[j], file, m), 0)
}

/// A method placed by the locations: when its class is in the table with a
/// file, and a location names the method in that file, the method gets the
/// class's file and the first such location's line.
pub open spec fn located(cs: Seq<ClassModel>, locs: Seq<LocModel>, m: InfoModel) -> InfoModel {
    match lookup(cs, m.fqn.class_fqn) {
        Some(c) => match c.file_path {
            Some(f) => match loc_index(locs, f, m.fqn) {
                Some(j) => InfoModel { file_path: Some(f), line: Some(locs[j].line), ..m },
                None => m,
            },
            None => m,
        },
        None => m,
    }
}

/// Every method placed by the locations.
pub open spec fn located_all(cs: Seq<ClassModel>, locs: Seq<LocModel>, ms: Seq<InfoModel>) -> Seq<
    InfoModel,
> {
    Seq::new(ms.len(), |i: int| located(cs, locs, ms[i]))
}

/// The start of a method definition: `def name` for an instance method,
/// `def self.name` for a class method.
pub open spec fn def_pattern(f: FqnModel) -> Seq<char> {
    match f.kind {
        MethodKind::Instance => "def "@ + f.method_name,
        MethodKind::Class => "def self."@ + f.method_name,
    }
}

/// Index of the first line of `content` that starts, after its leading
/// whitespace, with the definition of `f`.
pub open spec fn def_line_index(content: Seq<char>, f: FqnModel) -> Option<int> {
    let ls = spec_lines(content);
    first_where(ls.len() as int, |i: int| has_prefix(trim_start(ls[i]), def_pattern(f)), 0)
}

/// The 1-based line of the definition of `f` in `content`.
pub open spec fn spec_def_line(content: Seq<char>, f: FqnModel) -> Option<int> {
    match def_line_index(content, f) {
        Some(i) => Some(i + 1),
        None => None,
    }
}

/// The content of the first file named `path`.
pub open spec fn file_content(files: Seq<(Seq<char>, Seq<char>)>, path: Seq<char>) -> Option<
    Seq<char>,
> {
    match first_where(files.len() as int, |i: int| files[i].0 == path, 0) {
        Some(i) => Some(files[i].1),
        None => None,
    }
}

/// Texts of named file contents.
pub open spec fn file_texts(v: Seq<(String, String)>) -> Seq<(Seq<char>, Seq<char>)> {
    v.map_values(|f: (String, String)| (f.0@, f.1@))
}

/// A method placed by the source files: when its class is in the table with
/// a file whose content is given, and a line of it defines the method, the
/// method gets the class's file and that line's number.
pub open spec fn sourced(
    cs: Seq<ClassModel>,
    files: Seq<(Seq<char>, Seq<char>)>,
    m: InfoModel,
) -> InfoModel {
    match lookup(cs, m.fqn.class_fqn) {
        Some(c) => match c.file_path {
            Some(f) => match file_content(files, f) {
                Some(content) => match spec_def_line(content, m.fqn) {
                    Some(l) => InfoModel { file_path: Some(f), line: Some(l as usize), ..m },
                    None => m,
                },
                None => m,
            },
            None => m,
        },
        None => m,
    }
}

/// Every method placed by the source files.
pub open spec fn sourced_all(
    cs: Seq<ClassModel>,
    files: Seq<(Seq<char>, Seq<char>)>,
    ms: Seq<InfoModel>,
) -> Seq<InfoModel> {
    Seq::new(ms.len(), |i: int| sourced(cs, files, ms[i]))
}

/// Position of the first location of method `fqn` in `file`.
fn find_loc(locs: &[MethodLoc], file: &Vec<char>, fqn: &MethodFqn) -> (r: Option<usize>)
    ensures
        opt_int(r) == loc_index(crate::parse_tree::loc_models(locs@), file@, fqn@),
        r matches Some(j) ==> j < locs@.len(),
{
    let ghost lm = crate::parse_tree::loc_models(locs@);
    proof {
        reveal_strlit("./");
    }
    let want = strip_prefix_or_keep_str(file, "./");
    let name = to_chars(fqn.method_name.as_str());
    let is_class = fqn.kind == MethodKind::Class;
    let mut j: usize = 0;
    while j < locs.len()
        invariant
            j <= locs.len(),
            lm == crate::parse_tree::loc_models(locs@),
            want@ == norm_path(file@),
            name@ == fqn@.method_name,
            is_class == (fqn@.kind == MethodKind::Class),
            forall|k: int| 0 <= k < j ==> !loc_matches(#[trigger] lm[k], file@, fqn@),
        decreases locs.len() - j,
    {
        let l = &locs[j];
        let lf = to_chars(l.file.as_str());
        let lfn = strip_prefix_or_keep_str(&lf, "./");
        let ln = to_chars(l.name.as_str());
        if chars_eq(&lfn, &want) && chars_eq(&ln, &name) && l.is_class_method == is_class {
            proof {
                crate::text::lemma_first_where_is(
                    lm.len() as int,
                    |k: int| loc_matches(lm[k], file@, fqn@),
                    Some(j as int),
                );
            }
            return Some(j);
        }
        assert(!loc_matches(lm[j as int], file@, fqn@));
        j += 1;
    }
    proof {
        crate::text::lemma_first_where_is(
            lm.len() as int,
            |k: int| loc_matches(lm[k], file@, fqn@),
            None,
        );
    }
    None
}

/// Position of the first file named `path`.
fn find_file(files: &Vec<(String, String)>, path: &str) -> (r: Option<usize>)
    ensures
        match r {
            Some(i) => i < files.len() && file_content(file_texts(files@), path@) == Some(
                files@[i as int].1@,
            ),
            None => file_content(file_texts(files@), path@) is None,
        },
{
    let ghost ft = file_texts(files@);
    let mut i: usize = 0;
    while i < files.len()
        invariant
            i <= files.len(),
            ft == file_texts(files@),
            forall|k: int| 0 <= k < i ==> (#[trigger] ft[k]).0 != path@,
        decreases files.len() - i,
    {
        if str_eq(files[i].0.as_str(), path) {
            proof {
                crate::text::lemma_first_where_is(
                    ft.len() as int,
                    |k: int| ft[k].0 == path@,
                    Some(i as int),
                );
            }
            return Some(i);
        }
        assert(ft[i as int].0 != path@);
        i += 1;
    }
    proof {
        crate::text::lemma_first_where_is(ft.len() as int, |k: int| ft[k].0 == path@, None);
    }
    None
}

/// The 1-based line of the first line of `content` that starts, after its
/// leading whitespace, with `def name` (an instance method) or
/// `def self.name` (a class method).
pub fn def_line(content: &str, fqn: &MethodFqn) -> (r: Option<usize>)
    ensures
        match r {
            Some(l) => spec_def_line(content@, fqn@) == Some(l as int),
            None => spec_def_line(content@, fqn@) is None,
        },
{
    let c = to_chars(content);
    let ls = lines(&c);
    let mut pat: Vec<char> = Vec::new();
    match fqn.kind {
        MethodKind::Instance => append_str(&mut pat, "def "),
        MethodKind::Class => append_str(&mut pat, "def self."),
    }
    append_str(&mut pat, fqn.method_name.as_str());
    proof {
        reveal_strlit("def ");
        reveal_strlit("def self.");
        assert(pat@ == def_pattern(fqn@));
    }
    let ghost sl = spec_lines(content@);
    let mut i: usize = 0;
    while i < ls.len()
        invariant
            i <= ls.len(),
            crate::text::views(ls@) == sl,
            sl == spec_lines(content@),
            pat@ == def_pattern(fqn@),
            forall|k: int|
                0 <= k < i ==> !has_prefix(trim_start(#[trigger] sl[k]), def_pattern(fqn@)),
        decreases ls.len() - i,
    {
        assert(ls@[i as int]@ == sl[i as int]);
        let t = trim_start_chars(&ls[i]);
        if starts_with(&t, &pat) {
            proof {
                crate::text::lemma_first_where_is(
                    sl.len() as int,
                    |k: int| has_prefix(trim_start(sl[k]), def_pattern(fqn@)),
                    Some(i as int),
                );
            }
            let n = ls.len();
            assert(i < n);
            return Some(i + 1);
        }
        i += 1;
    }
    proof {
        crate::text::lemma_first_where_is(
            sl.len() as int,
            |k: int| has_prefix(trim_start(sl[k]), def_pattern(fqn@)),
            None,
        );
    }
    None
}

impl Project {
    /// Places each method by the definition sites found in the parse tree:
    /// a method whose class has a file, and that a location names in that
    /// file (a leading `./` set aside), gets the class's file and the first
    /// such location's line; the other methods and the classes are left as
    /// they are.
    pub fn resolve_source_locations_from_locs(&mut self, locs: &[MethodLoc])
        ensures
            final(self)@.classes == old(self)@.classes,
            final(self)@.methods == located_all(
                old(self)@.classes,
                crate::parse_tree::loc_models(locs@),
                old(self)@.methods,
            ),
    {
        let ghost lm = crate::parse_tree::loc_models(locs@);
        let ghost cs = old(self)@.classes;
        let ghost ms = old(self)@.methods;
        let mut i: usize = 0;
        while i < self.methods.len()
            invariant
                i <= self.methods.len(),
                self.methods.len() == ms.len(),
                self@.classes == cs,
                lm == crate::parse_tree::loc_models(locs@),
                forall|k: int| 0 <= k < i ==> #[trigger] self@.methods[k] == located(cs, lm, ms[k]),
                forall|k: int| i <= k < ms.len() ==> #[trigger] self@.methods[k] == ms[k],
            decreases self.methods.len() - i,
        {
            assert(self@.methods[i as int] == ms[i as int]);
            let ghost head = self@.methods;
            let found = match self.classes.get(self.methods[i].fqn.class_fqn.as_str()) {
                Some(c) => match &c.file_path {
                    Some(f) => {
                        let fv = to_chars(f.as_str());
                        match find_loc(locs, &fv, &self.methods[i].fqn) {
                            Some(j) => Some((f.clone(), locs[j].line)),
                            None => None,
                        }
                    },
                    None => None,
                },
                None => None,
            };
            let ghost before = self.methods@;
            match found {
                Some((f, line)) => {
                    self.methods[i].file_path = Some(f);
                    self.methods[i].line = Some(line);
                },
                None => {},
            }
            assert(self@.methods[i as int] == located(cs, lm, ms[i as int]));
            assert forall|k: int| 0 <= k < i implies #[trigger] self@.methods[k] == located(cs, lm, ms[k]) by {
                assert(self.methods@[k] == before[k]);
                assert(info_models(before)[k] == head[k]);
            }
            assert forall|k: int| i < k < ms.len() implies #[trigger] self@.methods[k] == ms[k] by {
                assert(self.methods@[k] == before[k]);
                assert(info_models(before)[k] == head[k]);
            }
            i += 1;
        }
        assert(self@.methods =~= located_all(cs, lm, ms));
    }

    /// Places each method by the source of its class's file: `files` holds
    /// the files that could be read, by path. A method whose class has a
    /// file among them, in which a line starts (after its indentation) with
    /// the method's definition, gets the class's file and the number of the
    /// first such line; the other methods and the classes are left as they
    /// are.
    pub fn resolve_source_locations_in(&mut self, files: &Vec<(String, String)>)
        ensures
            final(self)@.classes == old(self)@.classes,
            final(self)@.methods == sourced_all(
                old(self)@.classes,
                file_texts(files@),
                old(self)@.methods,
            ),
    {
        let ghost ft = file_texts(files@);
        let ghost cs = old(self)@.classes;
        let ghost ms = old(self)@.methods;
        let mut i: usize = 0;
        while i < self.methods.len()
            invariant
                i <= self.methods.len(),
                self.methods.len() == ms.len(),
                self@.classes == cs,
                ft == file_texts(files@),
                forall|k: int| 0 <= k < i ==> #[trigger] self@.methods[k] == sourced(cs, ft, ms[k]),
                forall|k: int| i <= k < ms.len() ==> #[trigger] self@.methods[k] == ms[k],
            decreases self.methods.len() - i,
        {
            assert(self@.methods[i as int] == ms[i as int]);
            let ghost head = self@.methods;
            let found = match self.classes.get(self.methods[i].fqn.class_fqn.as_str()) {
                Some(c) => match &c.file_path {
                    Some(f) => match find_file(files, f.as_str()) {
                        Some(j) => match def_line(files[j].1.as_str(), &self.methods[i].fqn) {
                            Some(line) => Some((f.clone(), line)),
                            None => None,
                        },
                        None => None,
                    },
                    None => None,
                },
                None => None,
            };
            let ghost before = self.methods@;
            match found {
                Some((f, line)) => {
                    self.methods[i].file_path = Some(f);
                    self.methods[i].line = Some(line);
                },
                None => {},
            }
            assert(self@.methods[i as int] == sourced(cs, ft, ms[i as int]));
            assert forall|k: int| 0 <= k < i implies #[trigger] self@.methods[k] == sourced(cs, ft, ms[k]) by {
                assert(self.methods@[k] == before[k]);
                assert(info_models(before)[k] == head[k]);
            }
            assert forall|k: int| i < k < ms.len() implies #[trigger] self@.methods[k] == ms[k] by {
                assert(self.methods@[k] == before[k]);
                assert(info_models(before)[k] == head[k]);
            }
            i += 1;
        }
        assert(self@.methods =~= sourced_all(cs, ft, ms));
    }

    /// Places the methods of a loaded project: by the parse-tree locations
    /// when there are any, otherwise by the source files `files` (which the
    /// caller reads only in that case).
    pub fn place_methods(&mut self, locs: &[MethodLoc], files: &Vec<(String, String)>)
        ensures
            final(self)@.classes == old(self)@.classes,
            final(self)@.methods == if locs@.len() > 0 {
                located_all(old(self)@.classes, crate::parse_tree::loc_models(locs@), old(self)@.methods)
            } else {
                sourced_all(old(self)@.classes, file_texts(files@), old(self)@.methods)
            },
    {
        if locs.len() > 0 {
            self.resolve_source_locations_from_locs(locs);
        } else {
            self.resolve_source_locations_in(files);
        }
    }
}


// ---------------------------------------------------------------------------
// Laws
// ---------------------------------------------------------------------------

/// What `select_methods` keeps comes from the input and passes the filter.
pub proof fn lemma_select_sound(
    ms: Seq<InfoModel>,
    kind: Option<MethodKind>,
    name: Seq<char>,
    class: Seq<char>,
    exact: bool,
    x: InfoModel,
)
    requires
        select_methods(ms, kind, name, class, exact).contains(x),
    ensures
        ms.contains(x),
        method_selected(x, kind, name, class, exact),
    decreases ms.len(),
{
    let rest = select_methods(ms.drop_last(), kind, name, class, exact);
    let out = select_methods(ms, kind, name, class, exact);
    let j = choose|j: int| 0 <= j < out.len() && out[j] == x;
    if method_selected(ms.last(), kind, name, class, exact) && j == rest.len() {
        assert(out[j] == ms.last());
        assert(ms[ms.len() - 1] == x);
    } else {
        assert(out[j] == rest[j]);
        assert(rest.contains(x));
        lemma_select_sound(ms.drop_last(), kind, name, class, exact, x);
        let k = choose|k: int| 0 <= k < ms.drop_last().len() && ms.drop_last()[k] == x;
        assert(ms[k] == x);
    }
}

/// What the superclass chain yields are methods of the project of the
/// kind and name asked for.
pub proof fn lemma_chain_sound(
    p: ProjectModel,
    s: Seq<char>,
    kind: MethodKind,
    name: Seq<char>,
    visited: Set<Seq<char>>,
    x: InfoModel,
)
    requires
        chain_methods(p, s, kind, name, visited).contains(x),
    ensures
        p.methods.contains(x),
        x.fqn.kind == kind,
        x.fqn.method_name == name,
    decreases class_names(p.classes).difference(visited).len(),
{
    if !visited.contains(s) {
        let found = select_methods(p.methods, Some(kind), name, s, true);
        if found.len() > 0 {
            lemma_select_sound(p.methods, Some(kind), name, s, true, x);
        } else {
            match lookup(p.classes, s) {
                Some(c) => match c.super_class {
                    Some(n) => {
                        lemma_chain_step(p.classes, s, visited);
                        lemma_chain_sound(p, n, kind, name, visited.insert(s), x);
                    },
                    None => {},
                },
                None => {},
            }
        }
    }
}

/// What the inherited search yields are methods of the project of the kind
/// and name asked for.
pub proof fn lemma_inherited_sound(
    p: ProjectModel,
    class: Seq<char>,
    kind: MethodKind,
    name: Seq<char>,
    i: int,
    x: InfoModel,
)
    requires
        inherited_from(p, class, kind, name, i).contains(x),
    ensures
        p.methods.contains(x),
        x.fqn.kind == kind,
        x.fqn.method_name == name,
    decreases p.classes.len() - i,
{
    if 0 <= i < p.classes.len() {
        let c = p.classes[i];
        let found = if has_suffix(c.fqn, class) {
            match c.super_class {
                Some(s) => chain_methods(p, s, kind, name, Set::empty()),
                None => seq![],
            }
        } else {
            seq![]
        };
        if found.len() > 0 {
            match c.super_class {
                Some(s) => {
                    lemma_chain_sound(p, s, kind, name, Set::empty(), x);
                },
                None => {},
            }
        } else {
            lemma_inherited_sound(p, class, kind, name, i + 1, x);
        }
    }
}

/// Every method a query finds is a method of the project: for
/// `Class#name` an instance method named `name`, for `Class.name` a class
/// method named `name`, and for a bare `Class` a method of a class whose
/// name ends with `Class`.
pub proof fn lemma_find_methods_sound(p: ProjectModel, q: Seq<char>, x: InfoModel)
    requires
        spec_find_methods(p, q).contains(x),
    ensures
        p.methods.contains(x),
        split_at_char(q, '#') matches Some((c, m)) ==> x.fqn.kind == MethodKind::Instance
            && x.fqn.method_name == m,
        split_at_char(q, '#') is None ==> (split_at_char(q, '.') matches Some((c, m))
            ==> x.fqn.kind == MethodKind::Class && x.fqn.method_name == m),
        split_at_char(q, '#') is None && split_at_char(q, '.') is None ==> has_suffix(
            x.fqn.class_fqn,
            q,
        ),
{
    match split_at_char(q, '#') {
        Some((c, m)) => {
            if select_methods(p.methods, Some(MethodKind::Instance), m, c, false).len() > 0 {
                lemma_select_sound(p.methods, Some(MethodKind::Instance), m, c, false, x);
            } else {
                lemma_inherited_sound(p, c, MethodKind::Instance, m, 0, x);
            }
        },
        None => match split_at_char(q, '.') {
            Some((c, m)) => {
                if select_methods(p.methods, Some(MethodKind::Class), m, c, false).len() > 0 {
                    lemma_select_sound(p.methods, Some(MethodKind::Class), m, c, false, x);
                } else {
                    lemma_inherited_sound(p, c, MethodKind::Class, m, 0, x);
                }
            },
            None => {
                lemma_select_sound(p.methods, None, Seq::empty(), q, false, x);
            },
        },
    }
}

/// Placing the methods by the parse-tree locations a second time changes
/// nothing.
pub proof fn lemma_located_idempotent(cs: Seq<ClassModel>, locs: Seq<LocModel>, ms: Seq<InfoModel>)
    ensures
        located_all(cs, locs, located_all(cs, locs, ms)) == located_all(cs, locs, ms),
{
    let once = located_all(cs, locs, ms);
    assert forall|i: int| 0 <= i < ms.len() implies located(cs, locs, once[i]) == once[i] by {
        assert(once[i] == located(cs, locs, ms[i]));
    }
    assert(located_all(cs, locs, once) =~= once);
}

/// Placing the methods by their source files a second time changes
/// nothing.
pub proof fn lemma_sourced_idempotent(
    cs: Seq<ClassModel>,
    files: Seq<(Seq<char>, Seq<char>)>,
    ms: Seq<InfoModel>,
)
    ensures
        sourced_all(cs, files, sourced_all(cs, files, ms)) == sourced_all(cs, files, ms),
{
    let once = sourced_all(cs, files, ms);
    assert forall|i: int| 0 <= i < ms.len() implies sourced(cs, files, once[i]) == once[i] by {
        assert(once[i] == sourced(cs, files, ms[i]));
    }
    assert(sourced_all(cs, files, once) =~= once);
}


/// Every method that passes the filter is kept.
pub proof fn lemma_select_complete(
    ms: Seq<InfoModel>,
    kind: Option<MethodKind>,
    name: Seq<char>,
    class: Seq<char>,
    exact: bool,
    x: InfoModel,
)
    requires
        ms.contains(x),
        method_selected(x, kind, name, class, exact),
    ensures
        select_methods(ms, kind, name, class, exact).contains(x),
    decreases ms.len(),
{
    let rest = select_methods(ms.drop_last(), kind, name, class, exact);
    let out = select_methods(ms, kind, name, class, exact);
    if ms.last() == x {
        assert(out == rest.push(x));
        assert(out[rest.len() as int] == x);
    } else {
        let k = choose|k: int| 0 <= k < ms.len() && ms[k] == x;
        assert(k < ms.len() - 1);
        assert(ms.drop_last()[k] == x);
        lemma_select_complete(ms.drop_last(), kind, name, class, exact, x);
        let j = choose|j: int| 0 <= j < rest.len() && rest[j] == x;
        assert(out[j] == x);
    }
}

/// A class query holds exactly the classes of the table whose name ends
/// with the query: "Campaign" finds `Marketing::Campaign`.
pub proof fn lemma_select_classes_exact(cs: Seq<ClassModel>, q: Seq<char>, c: ClassModel)
    ensures
        select_classes(cs, q).contains(c) <==> (cs.contains(c) && has_suffix(c.fqn, q)),
    decreases cs.len(),
{
    if cs.len() > 0 {
        let pre = cs.drop_last();
        let rest = select_classes(pre, q);
        let out = select_classes(cs, q);
        lemma_select_classes_exact(pre, q, c);
        if out.contains(c) {
            let j = choose|j: int| 0 <= j < out.len() && out[j] == c;
            if has_suffix(cs.last().fqn, q) && j == rest.len() {
                assert(cs[cs.len() - 1] == c);
            } else {
                assert(rest[j] == c);
                let k = choose|k: int| 0 <= k < pre.len() && pre[k] == c;
                assert(cs[k] == c);
            }
        }
        if cs.contains(c) && has_suffix(c.fqn, q) {
            let k = choose|k: int| 0 <= k < cs.len() && cs[k] == c;
            if k == cs.len() - 1 {
                assert(out[rest.len() as int] == c);
            } else {
                assert(pre[k] == c);
                let j = choose|j: int| 0 <= j < rest.len() && rest[j] == c;
                if has_suffix(cs.last().fqn, q) {
                    assert(out[j] == c);
                } else {
                    assert(out[j] == c);
                }
            }
        }
    }
}

/// A method query with direct matches holds exactly the project's methods
/// of the asked kind and name whose class name ends with the asked class.
pub proof fn lemma_direct_matches_exact(
    p: ProjectModel,
    class: Seq<char>,
    name: Seq<char>,
    kind: MethodKind,
    x: InfoModel,
)
    requires
        select_methods(p.methods, Some(kind), name, class, false).len() > 0,
    ensures
        own_or_inherited(p, class, name, kind).contains(x) <==> (p.methods.contains(x)
            && x.fqn.kind == kind && x.fqn.method_name == name && has_suffix(x.fqn.class_fqn, class)),
{
    if own_or_inherited(p, class, name, kind).contains(x) {
        lemma_select_sound(p.methods, Some(kind), name, class, false, x);
    }
    if p.methods.contains(x) && x.fqn.kind == kind && x.fqn.method_name == name && has_suffix(
        x.fqn.class_fqn,
        class,
    ) {
        lemma_select_complete(p.methods, Some(kind), name, class, false, x);
    }
}


/// Placing a method by the parse-tree locations or by the source files
/// changes at most its file and line.
pub proof fn lemma_placing_keeps_the_rest(
    cs: Seq<ClassModel>,
    locs: Seq<LocModel>,
    files: Seq<(Seq<char>, Seq<char>)>,
    m: InfoModel,
)
    ensures
        (InfoModel { file_path: m.file_path, line: m.line, ..located(cs, locs, m) }) == m,
        (InfoModel { file_path: m.file_path, line: m.line, ..sourced(cs, files, m) }) == m,
{
}

} // verus!

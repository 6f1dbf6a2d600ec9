//! Reader for Sorbet's `--print=cfg-text` output: methods, their basic
//! blocks, instructions and terminators.
use vstd::prelude::*;

use crate::sorbet_type::{is_close, is_open, split_args, split_type_args};
use crate::text::{
    append, contains_str, eq_str, find_char, find_str, first_where,
    has_prefix, is_ascii, is_ascii_char, last_where, lemma_find_occurs, lemma_first_where,
    lemma_last_where, lemma_rfind_occurs, lines, occurs_at, opt_int, parse_i32, parse_usize,
    rfind_char, rfind_str, skip, slice_chars, spec_contains, spec_find, spec_lines,
    spec_parse_i32, spec_parse_usize, spec_rfind, spec_strip_prefix, starts_with_str,
    string_from_chars, strip_prefix_str,
    strip_suffix_or_keep, strip_suffix_or_keep_str, take, to_chars, trim, trim_chars, views,
};

verus! {

broadcast use {vstd::seq_lib::group_seq_properties, vstd::string::group_string_axioms};

// ---------------------------------------------------------------------------
// Types
// ---------------------------------------------------------------------------

/// One method of the cfg-text output.
#[derive(Debug)]
pub struct CfgMethod {
    pub raw_name: String,
    pub blocks: Vec<CfgBasicBlock>,
}

/// One basic block.
#[derive(Debug)]
pub struct CfgBasicBlock {
    pub id: usize,
    pub first_dead: i32,
    pub params: Vec<CfgVar>,
    pub instructions: Vec<CfgInstruction>,
    pub terminator: CfgTerminator,
    pub backedges: Vec<usize>,
}

/// A variable with its type, as `name: Type`.
#[derive(Debug)]
pub struct CfgVar {
    pub name: String,
    pub ty: String,
}

/// One instruction of a basic block.
#[derive(Debug)]
pub enum CfgInstruction {
    Cast { lhs: CfgVar, source: CfgVar, target_type: String },
    Alias { lhs: CfgVar, kind: AliasKind },
    LoadArg { lhs: CfgVar, arg_name: String },
    ArgPresent { lhs: CfgVar, arg_name: String },
    MethodCall { lhs: CfgVar, receiver: CfgVar, method_name: String, args: Vec<CfgVar> },
    Return { value: CfgVar },
    BlockReturn { block_name: String, value: CfgVar },
    Literal { lhs: CfgVar, value: String },
    Assignment { lhs: CfgVar, rhs: String },
    GetCurrentException { lhs: CfgVar },
    LoadSelf { lhs: CfgVar, block_name: String },
    LoadYieldParams { lhs: CfgVar, block_name: String },
    YieldLoadArg { lhs: CfgVar, index: usize, source: CfgVar },
    Solve { lhs: CfgVar, temp: String, block_name: String },
    KeepAlive { lhs: CfgVar, var: String },
}

/// What an `alias` instruction refers to.
#[derive(Debug)]
pub enum AliasKind {
    Constant(String),
    Ivar(String),
}

/// How a basic block ends.
#[derive(Debug)]
pub enum CfgTerminator {
    Unconditional { target: usize },
    Conditional { var: CfgVar, true_bb: usize, false_bb: usize },
    BlockCall { true_bb: usize, false_bb: usize },
}

/// A malformed basic-block header.
#[derive(Debug)]
pub enum CfgParseError {
    ParseError { line: usize, message: String },
}

// ---------------------------------------------------------------------------
// Models
// ---------------------------------------------------------------------------

/// Model of a [`CfgVar`].
pub struct VarModel {
    pub name: Seq<char>,
    pub ty: Seq<char>,
}

/// Model of an [`AliasKind`].
pub enum AliasModel {
    Constant(Seq<char>),
    Ivar(Seq<char>),
}

/// Model of a [`CfgInstruction`].
pub enum InstrModel {
    Cast { lhs: VarModel, source: VarModel, target_type: Seq<char> },
    Alias { lhs: VarModel, kind: AliasModel },
    LoadArg { lhs: VarModel, arg_name: Seq<char> },
    ArgPresent { lhs: VarModel, arg_name: Seq<char> },
    MethodCall { lhs: VarModel, receiver: VarModel, method_name: Seq<char>, args: Seq<VarModel> },
    Return { value: VarModel },
    BlockReturn { block_name: Seq<char>, value: VarModel },
    Literal { lhs: VarModel, value: Seq<char> },
    Assignment { lhs: VarModel, rhs: Seq<char> },
    GetCurrentException { lhs: VarModel },
    LoadSelf { lhs: VarModel, block_name: Seq<char> },
    LoadYieldParams { lhs: VarModel, block_name: Seq<char> },
    YieldLoadArg { lhs: VarModel, index: usize, source: VarModel },
    Solve { lhs: VarModel, temp: Seq<char>, block_name: Seq<char> },
    KeepAlive { lhs: VarModel, var: Seq<char> },
}

/// Model of a [`CfgTerminator`].
pub enum TermModel {
    Unconditional { target: usize },
    Conditional { var: VarModel, true_bb: usize, false_bb: usize },
    BlockCall { true_bb: usize, false_bb: usize },
}

/// Model of a [`CfgBasicBlock`].
pub struct BlockModel {
    pub id: usize,
    pub first_dead: i32,
    pub params: Seq<VarModel>,
    pub instructions: Seq<InstrModel>,
    pub terminator: TermModel,
    pub backedges: Seq<usize>,
}

/// Model of a [`CfgMethod`].
pub struct MethodModel {
    pub raw_name: Seq<char>,
    pub blocks: Seq<BlockModel>,
}

/// Model of a [`CfgParseError`]: the 1-based line and the message.
pub struct ErrorModel {
    pub line: usize,
    pub message: Seq<char>,
}

impl View for CfgVar {
    type V = VarModel;

    open spec fn view(&self) -> VarModel {
        VarModel { name: self.name@, ty: self.ty@ }
    }
}

/// Models of a list of variables.
pub open spec fn var_models(v: Seq<CfgVar>) -> Seq<VarModel> {
    v.map_values(|x: CfgVar| x@)
}

impl View for AliasKind {
    type V = AliasModel;

    open spec fn view(&self) -> AliasModel {
        match self {
            AliasKind::Constant(s) => AliasModel::Constant(s@),
            AliasKind::Ivar(s) => AliasModel::Ivar(s@),
        }
    }
}

impl View for CfgInstruction {
    type V = InstrModel;

    open spec fn view(&self) -> InstrModel {
        match self {
            CfgInstruction::Cast { lhs, source, target_type } => InstrModel::Cast {
                lhs: lhs@,
                source: source@,
                target_type: target_type@,
            },
            CfgInstruction::Alias { lhs, kind } => InstrModel::Alias { lhs: lhs@, kind: kind@ },
            CfgInstruction::LoadArg { lhs, arg_name } => InstrModel::LoadArg {
                lhs: lhs@,
                arg_name: arg_name@,
            },
            CfgInstruction::ArgPresent { lhs, arg_name } => InstrModel::ArgPresent {
                lhs: lhs@,
                arg_name: arg_name@,
            },
            CfgInstruction::MethodCall { lhs, receiver, method_name, args } => InstrModel::MethodCall {
                lhs: lhs@,
                receiver: receiver@,
                method_name: method_name@,
                args: var_models(args@),
            },
            CfgInstruction::Return { value } => InstrModel::Return { value: value@ },
            CfgInstruction::BlockReturn { block_name, value } => InstrModel::BlockReturn {
                block_name: block_name@,
                value: value@,
            },
            CfgInstruction::Literal { lhs, value } => InstrModel::Literal {
                lhs: lhs@,
                value: value@,
            },
            CfgInstruction::Assignment { lhs, rhs } => InstrModel::Assignment {
                lhs: lhs@,
                rhs: rhs@,
            },
            CfgInstruction::GetCurrentException { lhs } => InstrModel::GetCurrentException {
                lhs: lhs@,
            },
            CfgInstruction::LoadSelf { lhs, block_name } => InstrModel::LoadSelf {
                lhs: lhs@,
                block_name: block_name@,
            },
            CfgInstruction::LoadYieldParams { lhs, block_name } => InstrModel::LoadYieldParams {
                lhs: lhs@,
                block_name: block_name@,
            },
            CfgInstruction::YieldLoadArg { lhs, index, source } => InstrModel::YieldLoadArg {
                lhs: lhs@,
                index: *index,
                source: source@,
            },
            CfgInstruction::Solve { lhs, temp, block_name } => InstrModel::Solve {
                lhs: lhs@,
                temp: temp@,
                block_name: block_name@,
            },
            CfgInstruction::KeepAlive { lhs, var } => InstrModel::KeepAlive {
                lhs: lhs@,
                var: var@,
            },
        }
    }
}

/// Models of a list of instructions.
pub open spec fn instr_models(v: Seq<CfgInstruction>) -> Seq<InstrModel> {
    v.map_values(|x: CfgInstruction| x@)
}

impl View for CfgTerminator {
    type V = TermModel;

    open spec fn view(&self) -> TermModel {
        match self {
            CfgTerminator::Unconditional { target } => TermModel::Unconditional {
                target: *target,
            },
            CfgTerminator::Conditional { var, true_bb, false_bb } => TermModel::Conditional {
                var: var@,
                true_bb: *true_bb,
                false_bb: *false_bb,
            },
            CfgTerminator::BlockCall { true_bb, false_bb } => TermModel::BlockCall {
                true_bb: *true_bb,
                false_bb: *false_bb,
            },
        }
    }
}

impl View for CfgBasicBlock {
    type V = BlockModel;

    open spec fn view(&self) -> BlockModel {
        BlockModel {
            id: self.id,
            first_dead: self.first_dead,
            params: var_models(self.params@),
            instructions: instr_models(self.instructions@),
            terminator: self.terminator@,
            backedges: self.backedges@,
        }
    }
}

/// Models of a list of blocks.
pub open spec fn block_models(v: Seq<CfgBasicBlock>) -> Seq<BlockModel> {
    v.map_values(|x: CfgBasicBlock| x@)
}

impl View for CfgMethod {
    type V = MethodModel;

    open spec fn view(&self) -> MethodModel {
        MethodModel { raw_name: self.raw_name@, blocks: block_models(self.blocks@) }
    }
}

/// Models of a list of methods.
pub open spec fn method_models(v: Seq<CfgMethod>) -> Seq<MethodModel> {
    v.map_values(|x: CfgMethod| x@)
}

impl View for CfgParseError {
    type V = ErrorModel;

    open spec fn view(&self) -> ErrorModel {
        match self {
            CfgParseError::ParseError { line, message } => ErrorModel {
                line: *line,
                message: message@,
            },
        }
    }
}

// ---------------------------------------------------------------------------
// Scanning within a line
// ---------------------------------------------------------------------------

/// Change of bracket nesting at one character.
pub open spec fn delta(c: char) -> int {
    if is_open(c) {
        1
    } else if is_close(c) {
        -1
    } else {
        0
    }
}

/// Bracket nesting depth before index `i` of `s`.
pub open spec fn depth_before(s: Seq<char>, i: int) -> int
    decreases i,
{
    if i <= 0 || i > s.len() {
        0
    } else {
        depth_before(s, i - 1) + delta(s[i - 1])
    }
}

/// `" = "` at top level at index `i`.
pub open spec fn is_top_eq(s: Seq<char>, i: int) -> bool {
    &&& 0 <= i
    &&& i + 2 < s.len()
    &&& depth_before(s, i) == 0
    &&& s[i] == ' '
    &&& s[i + 1] == '='
    &&& s[i + 2] == ' '
}

/// Predicate form of [`is_top_eq`].
pub open spec fn top_eq_at(s: Seq<char>) -> spec_fn(int) -> bool {
    |i: int| is_top_eq(s, i)
}

/// Index of the first top-level `" = "`.
pub open spec fn spec_top_level_eq(s: Seq<char>) -> Option<int> {
    first_where(s.len() as int, top_eq_at(s), 0)
}

/// `": "` at top level at index `i`, not at the start: the colon between a
/// name and its type.
pub open spec fn is_type_colon(s: Seq<char>, i: int) -> bool {
    &&& 0 < i
    &&& i + 1 < s.len()
    &&& depth_before(s, i) == 0
    &&& s[i] == ':'
    &&& s[i + 1] == ' '
}

/// Predicate form of [`is_type_colon`].
pub open spec fn type_colon_at(s: Seq<char>) -> spec_fn(int) -> bool {
    |i: int| is_type_colon(s, i)
}

/// Index of the colon between a name and its type.
pub open spec fn spec_type_colon(s: Seq<char>) -> Option<int> {
    first_where(s.len() as int, type_colon_at(s), 0)
}

/// `name: Type` read into a variable; without a colon the whole text is the
/// name and the type is empty.
pub open spec fn spec_typed_var(s: Seq<char>) -> VarModel {
    let t = trim(s);
    match spec_type_colon(t) {
        Some(c) => VarModel { name: t.take(c), ty: t.skip(c + 2) },
        None => VarModel { name: t, ty: Seq::empty() },
    }
}

/// The non-empty pieces of a comma-separated list, in order.
pub open spec fn nonempty(v: Seq<Seq<char>>) -> Seq<Seq<char>>
    decreases v.len(),
{
    if v.len() == 0 {
        seq![]
    } else if v.last().len() == 0 {
        nonempty(v.drop_last())
    } else {
        nonempty(v.drop_last()).push(v.last())
    }
}

/// A comma-separated list of typed variables; empty pieces are skipped.
pub open spec fn spec_typed_var_list(s: Seq<char>) -> Seq<VarModel> {
    nonempty(split_args(s)).map_values(|p: Seq<char>| spec_typed_var(p))
}

/// `.` at top level at index `i` followed by a character other than `.`.
pub open spec fn is_method_dot(s: Seq<char>, i: int) -> bool {
    &&& 0 <= i
    &&& i + 1 < s.len()
    &&& depth_before(s, i) == 0
    &&& s[i] == '.'
    &&& s[i + 1] != '.'
}

/// Predicate form of [`is_method_dot`].
pub open spec fn method_dot_at(s: Seq<char>) -> spec_fn(int) -> bool {
    |i: int| is_method_dot(s, i)
}

/// Index of the dot between a receiver and a method name: the last one.
pub open spec fn spec_method_dot(s: Seq<char>) -> Option<int> {
    last_where(method_dot_at(s), s.len() - 1)
}

/// `,` at top level at index `i`.
pub open spec fn is_top_comma(s: Seq<char>, i: int) -> bool {
    &&& 0 <= i < s.len()
    &&& depth_before(s, i) == 0
    &&& s[i] == ','
}

/// Predicate form of [`is_top_comma`].
pub open spec fn top_comma_at(s: Seq<char>) -> spec_fn(int) -> bool {
    |i: int| is_top_comma(s, i)
}

/// Index of the last top-level comma.
pub open spec fn spec_last_top_comma(s: Seq<char>) -> Option<int> {
    last_where(top_comma_at(s), s.len() - 1)
}

/// Closing minus opening parentheses in `s` from index `i` on.
pub open spec fn paren_balance_from(s: Seq<char>, i: int) -> int
    decreases s.len() - i,
{
    if i >= s.len() || i < 0 {
        0
    } else {
        paren_balance_from(s, i + 1) + (if s[i] == ')' {
            1
        } else if s[i] == '(' {
            -1
        } else {
            0
        })
    }
}

/// An opening parenthesis at `i` that matches a closing one after it.
pub open spec fn is_call_paren(s: Seq<char>, i: int) -> bool {
    &&& 0 <= i < s.len()
    &&& s[i] == '('
    &&& paren_balance_from(s, i) == 0
}

/// Predicate form of [`is_call_paren`].
pub open spec fn call_paren_at(s: Seq<char>) -> spec_fn(int) -> bool {
    |i: int| is_call_paren(s, i)
}

/// The opening parenthesis of the argument list: the last one that is
/// balanced by what follows it.
pub open spec fn spec_call_paren(s: Seq<char>) -> Option<int> {
    last_where(call_paren_at(s), s.len() - 1)
}

/// A method call `receiver: Type.method(args)` read from the right-hand side
/// of an instruction: `None` when it is not a call, `Some(None)` when reading
/// it does not finish (the last character is not ASCII), and otherwise the
/// receiver, the method name and the arguments.
pub open spec fn spec_method_call(s: Seq<char>) -> Option<Option<(VarModel, Seq<char>, Seq<VarModel>)>> {
    match spec_call_paren(s) {
        None => None,
        Some(p) => match spec_method_dot(s.take(p)) {
            None => None,
            Some(d) => if p + 1 <= s.len() - 1 && is_ascii_char(s.last()) {
                let args = s.subrange(p + 1, s.len() - 1);
                Some(
                    Some(
                        (
                            spec_typed_var(s.take(d)),
                            s.subrange(d + 1, p),
                            if args.len() == 0 {
                                seq![]
                            } else {
                                spec_typed_var_list(args)
                            },
                        ),
                    ),
                )
            } else {
                Some(None)
            },
        },
    }
}

/// `" ? bb<N> : bb<M>)"` read from the end of a terminator line.
pub open spec fn spec_branch_targets(line: Seq<char>) -> Option<(usize, usize)> {
    match spec_rfind(line, " ? bb"@) {
        None => None,
        Some(q) => {
            let rest = line.skip(q + 5);
            match spec_find(rest, " : bb"@) {
                None => None,
                Some(c) => match spec_parse_usize(rest.take(c)) {
                    None => None,
                    Some(t) => {
                        let after = rest.skip(c + 5);
                        let end = match spec_find(after, seq![')']) {
                            Some(e) => e,
                            None => after.len() as int,
                        };
                        match spec_parse_usize(after.take(end)) {
                            None => None,
                            Some(f) => Some((t, f)),
                        }
                    },
                },
            }
        },
    }
}


/// Index of the first top-level `" = "`.
pub fn find_top_level_eq(s: &Vec<char>) -> (r: Option<usize>)
    ensures
        opt_int(r) == spec_top_level_eq(s@),
{
    let mut opens: usize = 0;
    let mut closes: usize = 0;
    let mut i: usize = 0;
    while i < s.len()
        invariant
            i <= s.len(),
            opens + closes <= i,
            opens - closes == depth_before(s@, i as int),
            spec_top_level_eq(s@) == first_where(s@.len() as int, top_eq_at(s@), i as int),
        decreases s.len() - i,
    {
        let c = s[i];
        if opens == closes && c == ' ' && s.len() - i > 2 && s[i + 1] == '=' && s[i + 2] == ' ' {
            assert(top_eq_at(s@)(i as int));
            return Some(i);
        }
        assert(!top_eq_at(s@)(i as int));
        if c == '(' || c == '[' || c == '<' || c == '{' {
            opens += 1;
        } else if c == ')' || c == ']' || c == '>' || c == '}' {
            closes += 1;
        }
        i += 1;
    }
    None
}

/// Index of the colon between a name and its type.
pub fn find_type_colon(s: &Vec<char>) -> (r: Option<usize>)
    ensures
        opt_int(r) == spec_type_colon(s@),
{
    let mut opens: usize = 0;
    let mut closes: usize = 0;
    let mut i: usize = 0;
    while i < s.len()
        invariant
            i <= s.len(),
            opens + closes <= i,
            opens - closes == depth_before(s@, i as int),
            spec_type_colon(s@) == first_where(s@.len() as int, type_colon_at(s@), i as int),
        decreases s.len() - i,
    {
        let c = s[i];
        if opens == closes && c == ':' && i + 1 < s.len() && s[i + 1] == ' ' && i > 0 {
            assert(type_colon_at(s@)(i as int));
            return Some(i);
        }
        assert(!type_colon_at(s@)(i as int));
        if c == '(' || c == '[' || c == '<' || c == '{' {
            opens += 1;
        } else if c == ')' || c == ']' || c == '>' || c == '}' {
            closes += 1;
        }
        i += 1;
    }
    None
}

/// Index of the dot between a receiver and a method name.
pub fn find_method_dot(s: &Vec<char>) -> (r: Option<usize>)
    ensures
        opt_int(r) == spec_method_dot(s@),
{
    let mut opens: usize = 0;
    let mut closes: usize = 0;
    let mut last: Option<usize> = None;
    let mut i: usize = 0;
    while i < s.len()
        invariant
            i <= s.len(),
            opens + closes <= i,
            opens - closes == depth_before(s@, i as int),
            opt_int(last) == last_where(method_dot_at(s@), i - 1),
        decreases s.len() - i,
    {
        let c = s[i];
        if opens == closes && c == '.' && i + 1 < s.len() && s[i + 1] != '.' {
            assert(method_dot_at(s@)(i as int));
            last = Some(i);
        } else {
            assert(!method_dot_at(s@)(i as int));
        }
        if c == '(' || c == '[' || c == '<' || c == '{' {
            opens += 1;
        } else if c == ')' || c == ']' || c == '>' || c == '}' {
            closes += 1;
        }
        i += 1;
    }
    last
}

/// Index of the last top-level comma.
pub fn find_last_comma_top_level(s: &Vec<char>) -> (r: Option<usize>)
    ensures
        opt_int(r) == spec_last_top_comma(s@),
{
    let mut opens: usize = 0;
    let mut closes: usize = 0;
    let mut last: Option<usize> = None;
    let mut i: usize = 0;
    while i < s.len()
        invariant
            i <= s.len(),
            opens + closes <= i,
            opens - closes == depth_before(s@, i as int),
            opt_int(last) == last_where(top_comma_at(s@), i - 1),
        decreases s.len() - i,
    {
        let c = s[i];
        if opens == closes && c == ',' {
            assert(top_comma_at(s@)(i as int));
            last = Some(i);
        } else {
            assert(!top_comma_at(s@)(i as int));
        }
        if c == '(' || c == '[' || c == '<' || c == '{' {
            opens += 1;
        } else if c == ')' || c == ']' || c == '>' || c == '}' {
            closes += 1;
        }
        i += 1;
    }
    last
}

/// Index of the opening parenthesis of a call's argument list.
pub fn find_call_paren(s: &Vec<char>) -> (r: Option<usize>)
    ensures
        opt_int(r) == spec_call_paren(s@),
{
    let mut opens: usize = 0;
    let mut closes: usize = 0;
    let mut i: usize = s.len();
    while i > 0
        invariant
            i <= s.len(),
            opens + closes <= s.len() - i,
            closes - opens == paren_balance_from(s@, i as int),
            spec_call_paren(s@) == last_where(call_paren_at(s@), i - 1),
        decreases i,
    {
        let c = s[i - 1];
        if c == ')' {
            closes += 1;
        } else if c == '(' {
            opens += 1;
            if closes == opens {
                assert(call_paren_at(s@)(i - 1));
                return Some(i - 1);
            }
        }
        assert(!call_paren_at(s@)(i - 1));
        i -= 1;
    }
    None
}

/// `name: Type` read into a variable.
pub fn parse_typed_var(s: &Vec<char>) -> (r: CfgVar)
    ensures
        r@ == spec_typed_var(s@),
{
    let t = trim_chars(s);
    match find_type_colon(&t) {
        Some(c) => {
            proof {
                lemma_first_where(t@.len() as int, type_colon_at(t@), 0);
            }
            let name = take(&t, c);
            let ty = skip(&t, c + 2);
            CfgVar { name: string_from_chars(&name), ty: string_from_chars(&ty) }
        },
        None => CfgVar { name: string_from_chars(&t), ty: String::new() },
    }
}

/// A comma-separated list of typed variables.
pub fn parse_typed_var_list(s: &Vec<char>) -> (r: Vec<CfgVar>)
    ensures
        var_models(r@) == spec_typed_var_list(s@),
{
    let parts = split_type_args(s);
    let ghost ps = views(parts@);
    let mut out: Vec<CfgVar> = Vec::new();
    let mut i: usize = 0;
    assert(ps.take(0) =~= seq![]);
    assert(var_models(out@) =~= nonempty(ps.take(0)).map_values(|p: Seq<char>| spec_typed_var(p)));
    while i < parts.len()
        invariant
            i <= parts.len(),
            ps == views(parts@),
            var_models(out@) == nonempty(ps.take(i as int)).map_values(
                |p: Seq<char>| spec_typed_var(p),
            ),
        decreases parts.len() - i,
    {
        assert(ps.take(i + 1).drop_last() =~= ps.take(i as int));
        assert(ps.take(i + 1).last() == parts@[i as int]@);
        if parts[i].len() > 0 {
            let v = parse_typed_var(&parts[i]);
            let ghost prev = out@;
            out.push(v);
            assert(var_models(out@) =~= var_models(prev).push(v@));
            assert(var_models(out@) =~= nonempty(ps.take(i + 1)).map_values(
                |p: Seq<char>| spec_typed_var(p),
            ));
        }
        i += 1;
    }
    assert(ps.take(parts.len() as int) =~= ps);
    out
}

/// `" ? bb<N> : bb<M>)"` read from the end of a terminator line.
pub fn parse_branch_targets(line: &Vec<char>) -> (r: Option<(usize, usize)>)
    ensures
        r == spec_branch_targets(line@),
{
    proof {
        reveal_strlit(" ? bb");
        reveal_strlit(" : bb");
        assert(" ? bb"@.len() == 5);
        assert(" : bb"@.len() == 5);
    }
    let qo = rfind_str(line, " ? bb");
    if qo.is_none() {
        return None;
    }
    let q = qo.unwrap();
    let n = line.len();
    proof {
        lemma_rfind_occurs(line@, " ? bb"@);
        assert(occurs_at(line@, " ? bb"@, q as int));
        assert(q + 5 <= n);
    }
    let rest = skip(line, q + 5);
    let co = find_str(&rest, " : bb");
    if co.is_none() {
        return None;
    }
    let c = co.unwrap();
    proof {
        lemma_find_occurs(rest@, " : bb"@);
        assert(occurs_at(rest@, " : bb"@, c as int));
    }
    let head = take(&rest, c);
    let t = match parse_usize(&head) {
        Some(t) => t,
        None => return None,
    };
    let after = skip(&rest, c + 5);
    let end = match find_char(&after, ')') {
        Some(e) => e,
        None => after.len(),
    };
    proof {
        lemma_find_occurs(after@, seq![')']);
    }
    let tail = take(&after, end);
    match parse_usize(&tail) {
        Some(f) => Some((t, f)),
        None => None,
    }
}


// ---------------------------------------------------------------------------
// Instruction lines
// ---------------------------------------------------------------------------

/// What one instruction line of a basic block does to the block.
pub enum LineAction {
    /// The line changes nothing.
    Nothing,
    /// The line sets the block's terminator.
    Terminator(TermModel),
    /// The line appends an instruction.
    Instruction(InstrModel),
    /// Reading the line does not finish: a slice it asks for is out of range
    /// or splits a multi-byte character.
    Unreadable,
}

/// A literal value on the right-hand side: a symbol, a string, `nil`,
/// `true`, `false` or a number.
pub open spec fn is_literal_rhs(rhs: Seq<char>) -> bool {
    ||| (has_prefix(rhs, seq![':']) && !spec_contains(rhs, seq!['.']))
    ||| has_prefix(rhs, seq!['"'])
    ||| rhs == "nil"@
    ||| rhs == "true"@
    ||| rhs == "false"@
    ||| (rhs.len() > 0 && '0' <= rhs[0] && rhs[0] <= '9' && !spec_contains(rhs, seq![':']))
}

/// `cast(<source>, <Type>);`, given what follows `cast(`.
pub open spec fn spec_cast_action(lhs: VarModel, after: Seq<char>) -> LineAction {
    let ci = strip_suffix_or_keep(after, ");"@);
    match spec_last_top_comma(ci) {
        Some(c) => if c + 1 < ci.len() && is_ascii_char(ci[c + 1]) {
            LineAction::Instruction(
                InstrModel::Cast {
                    lhs,
                    source: spec_typed_var(ci.take(c)),
                    target_type: ci.skip(c + 2),
                },
            )
        } else {
            LineAction::Unreadable
        },
        None => LineAction::Nothing,
    }
}

/// `alias <C Name>`, `alias <C <undeclared-field-stub>> (@ivar)` or
/// `alias @ivar`, given what follows `alias `.
pub open spec fn spec_alias_action(lhs: VarModel, ar: Seq<char>) -> LineAction {
    if has_prefix(ar, "<C "@) {
        if spec_contains(ar, "(@"@) {
            let ps = spec_find(ar, "(@"@)->0;
            match spec_rfind(ar, seq![')']) {
                Some(pe) => if ps + 1 <= pe {
                    LineAction::Instruction(
                        InstrModel::Alias { lhs, kind: AliasModel::Ivar(ar.subrange(ps + 1, pe)) },
                    )
                } else {
                    LineAction::Unreadable
                },
                None => LineAction::Unreadable,
            }
        } else {
            let end = match spec_rfind(ar, seq!['>']) {
                Some(e) => e,
                None => ar.len() as int,
            };
            if 3 <= end {
                LineAction::Instruction(
                    InstrModel::Alias { lhs, kind: AliasModel::Constant(ar.subrange(3, end)) },
                )
            } else {
                LineAction::Unreadable
            }
        }
    } else if has_prefix(ar, seq!['@']) {
        LineAction::Instruction(InstrModel::Alias { lhs, kind: AliasModel::Ivar(ar) })
    } else {
        LineAction::Instruction(InstrModel::Alias { lhs, kind: AliasModel::Constant(ar) })
    }
}

/// `blockreturn<name> <value>`.
pub open spec fn spec_blockreturn_action(rhs: Seq<char>) -> LineAction {
    let ea = match spec_find(rhs, seq!['>']) {
        Some(e) => e,
        None => rhs.len() as int,
    };
    if "blockreturn<"@.len() <= ea && ea + 1 < rhs.len() && is_ascii_char(rhs[ea + 1]) {
        LineAction::Instruction(
            InstrModel::BlockReturn {
                block_name: rhs.subrange("blockreturn<"@.len() as int, ea),
                value: spec_typed_var(rhs.skip(ea + 2)),
            },
        )
    } else {
        LineAction::Unreadable
    }
}

/// `yield_load_arg(<index>, <source>)`, given what follows the opening
/// parenthesis.
pub open spec fn spec_yield_action(lhs: VarModel, after: Seq<char>) -> LineAction {
    let inner = strip_suffix_or_keep(after, ")"@);
    match spec_find(inner, ", "@) {
        Some(c) => LineAction::Instruction(
            InstrModel::YieldLoadArg {
                lhs,
                index: match spec_parse_usize(inner.take(c)) {
                    Some(n) => n,
                    None => 0,
                },
                source: spec_typed_var(inner.skip(c + 2)),
            },
        ),
        None => LineAction::Nothing,
    }
}

/// `Solve<<temp>, <block>>`, given what follows `Solve<`.
pub open spec fn spec_solve_action(lhs: VarModel, after: Seq<char>) -> LineAction {
    let inner = strip_suffix_or_keep(after, ">"@);
    match spec_rfind(inner, ", "@) {
        Some(c) => LineAction::Instruction(
            InstrModel::Solve { lhs, temp: inner.take(c), block_name: inner.skip(c + 2) },
        ),
        None => LineAction::Nothing,
    }
}

/// A literal, a method call, or else an assignment from another variable.
pub open spec fn spec_value_action(lhs: VarModel, rhs: Seq<char>) -> LineAction {
    if is_literal_rhs(rhs) {
        LineAction::Instruction(InstrModel::Literal { lhs, value: rhs })
    } else {
        match spec_method_call(rhs) {
            Some(Some(call)) => LineAction::Instruction(
                InstrModel::MethodCall {
                    lhs,
                    receiver: call.0,
                    method_name: call.1,
                    args: call.2,
                },
            ),
            Some(None) => LineAction::Unreadable,
            None => LineAction::Instruction(InstrModel::Assignment { lhs, rhs }),
        }
    }
}

/// The argument of a one-argument form `head(<arg>)`, given what follows
/// `head(`.
pub open spec fn paren_arg(after: Seq<char>) -> Seq<char> {
    strip_suffix_or_keep(after, ")"@)
}

/// What the right-hand side `rhs` of `lhs = rhs` denotes.
pub open spec fn spec_rhs_action(lhs: VarModel, rhs: Seq<char>) -> LineAction {
    if has_prefix(rhs, "cast("@) {
        spec_cast_action(lhs, rhs.skip("cast("@.len() as int))
    } else if has_prefix(rhs, "alias "@) {
        spec_alias_action(lhs, rhs.skip("alias "@.len() as int))
    } else if has_prefix(rhs, "load_arg("@) {
        LineAction::Instruction(
            InstrModel::LoadArg { lhs, arg_name: paren_arg(rhs.skip("load_arg("@.len() as int)) },
        )
    } else if has_prefix(rhs, "arg_present("@) {
        LineAction::Instruction(
            InstrModel::ArgPresent {
                lhs,
                arg_name: paren_arg(rhs.skip("arg_present("@.len() as int)),
            },
        )
    } else if has_prefix(rhs, "return "@) {
        LineAction::Instruction(
            InstrModel::Return { value: spec_typed_var(rhs.skip("return "@.len() as int)) },
        )
    } else if has_prefix(rhs, "blockreturn<"@) {
        spec_blockreturn_action(rhs)
    } else if rhs == "<get-current-exception>"@ {
        LineAction::Instruction(InstrModel::GetCurrentException { lhs })
    } else if has_prefix(rhs, "loadSelf("@) {
        LineAction::Instruction(
            InstrModel::LoadSelf { lhs, block_name: paren_arg(rhs.skip("loadSelf("@.len() as int)) },
        )
    } else if has_prefix(rhs, "load_yield_params("@) {
        LineAction::Instruction(
            InstrModel::LoadYieldParams {
                lhs,
                block_name: paren_arg(rhs.skip("load_yield_params("@.len() as int)),
            },
        )
    } else if has_prefix(rhs, "yield_load_arg("@) {
        spec_yield_action(lhs, rhs.skip("yield_load_arg("@.len() as int))
    } else if has_prefix(rhs, "Solve<"@) {
        spec_solve_action(lhs, rhs.skip("Solve<"@.len() as int))
    } else if has_prefix(rhs, "<keep-alive> "@) {
        LineAction::Instruction(
            InstrModel::KeepAlive { lhs, var: rhs.skip("<keep-alive> "@.len() as int) },
        )
    } else {
        spec_value_action(lhs, rhs)
    }
}

/// What one instruction line (without its four-space indent) does.
pub open spec fn spec_instr_action(line: Seq<char>) -> LineAction {
    if has_prefix(line, "<unconditional> -> bb"@) {
        LineAction::Terminator(
            TermModel::Unconditional {
                target: match spec_parse_usize(
                    line.skip("<unconditional> -> bb"@.len() as int),
                ) {
                    Some(t) => t,
                    None => 0,
                },
            },
        )
    } else if has_prefix(line, "<block-call> -> "@) {
        match spec_branch_targets(line) {
            Some((t, f)) => LineAction::Terminator(TermModel::BlockCall { true_bb: t, false_bb: f }),
            None => LineAction::Nothing,
        }
    } else if spec_contains(line, " -> ("@) && spec_contains(line, " ? bb"@) {
        let a = spec_find(line, " -> ("@)->0;
        match spec_branch_targets(line) {
            Some((t, f)) => LineAction::Terminator(
                TermModel::Conditional { var: spec_typed_var(line.take(a)), true_bb: t, false_bb: f },
            ),
            None => LineAction::Nothing,
        }
    } else {
        match spec_top_level_eq(line) {
            None => LineAction::Nothing,
            Some(e) => spec_rhs_action(spec_typed_var(line.take(e)), line.skip(e + 3)),
        }
    }
}

/// Executable counterpart of [`LineAction`].
pub enum ExecAction {
    Nothing,
    Terminator(CfgTerminator),
    Instruction(CfgInstruction),
    Unreadable,
}

impl View for ExecAction {
    type V = LineAction;

    open spec fn view(&self) -> LineAction {
        match self {
            ExecAction::Nothing => LineAction::Nothing,
            ExecAction::Terminator(t) => LineAction::Terminator(t@),
            ExecAction::Instruction(i) => LineAction::Instruction(i@),
            ExecAction::Unreadable => LineAction::Unreadable,
        }
    }
}

/// Executable result of reading a method call.
enum CallScan {
    NotCall,
    Unfinished,
    Call(CfgVar, String, Vec<CfgVar>),
}

/// Reads `receiver: Type.method(args)`.
fn try_parse_method_call(s: &Vec<char>) -> (r: CallScan)
    ensures
        match r {
            CallScan::NotCall => spec_method_call(s@) is None,
            CallScan::Unfinished => spec_method_call(s@) == Some(
                None::<(VarModel, Seq<char>, Seq<VarModel>)>,
            ),
            CallScan::Call(recv, name, args) => spec_method_call(s@) == Some(
                Some((recv@, name@, var_models(args@))),
            ),
        },
{
    let p = match find_call_paren(s) {
        Some(p) => p,
        None => return CallScan::NotCall,
    };
    proof {
        lemma_last_where(call_paren_at(s@), s@.len() - 1);
    }
    let before = take(s, p);
    let d = match find_method_dot(&before) {
        Some(d) => d,
        None => return CallScan::NotCall,
    };
    proof {
        lemma_last_where(method_dot_at(before@), before@.len() - 1);
    }
    let n = s.len();
    assert(p < n);
    if !(p < n - 1 && is_ascii(s[n - 1])) {
        return CallScan::Unfinished;
    }
    let recv_text = take(s, d);
    let receiver = parse_typed_var(&recv_text);
    let name = slice_chars(s, d + 1, p);
    let args_text = slice_chars(s, p + 1, s.len() - 1);
    let args = if args_text.len() == 0 {
        Vec::new()
    } else {
        parse_typed_var_list(&args_text)
    };
    assert(var_models(args@) =~= (if args_text@.len() == 0 {
        seq![]
    } else {
        spec_typed_var_list(args_text@)
    }));
    CallScan::Call(receiver, string_from_chars(&name), args)
}

/// `cast(...)`, given what follows `cast(`.
fn cast_action(lhs: CfgVar, after: &Vec<char>) -> (r: ExecAction)
    ensures
        r@ == spec_cast_action(lhs@, after@),
{
    let ci = strip_suffix_or_keep_str(after, ");");
    match find_last_comma_top_level(&ci) {
        Some(c) => {
            proof {
                lemma_last_where(top_comma_at(ci@), ci@.len() - 1);
            }
            if c < ci.len() - 1 && is_ascii(ci[c + 1]) {
                let src = take(&ci, c);
                let tgt = skip(&ci, c + 2);
                ExecAction::Instruction(
                    CfgInstruction::Cast {
                        lhs,
                        source: parse_typed_var(&src),
                        target_type: string_from_chars(&tgt),
                    },
                )
            } else {
                ExecAction::Unreadable
            }
        },
        None => ExecAction::Nothing,
    }
}

/// `alias ...`, given what follows `alias `.
fn alias_action(lhs: CfgVar, ar: &Vec<char>) -> (r: ExecAction)
    ensures
        r@ == spec_alias_action(lhs@, ar@),
{
    proof {
        reveal_strlit("@");
        assert("@"@ =~= seq!['@']);
    }
    if starts_with_str(ar, "<C ") {
        if contains_str(ar, "(@") {
            let ps = find_str(ar, "(@").unwrap();
            proof {
                lemma_find_occurs(ar@, "(@"@);
                reveal_strlit("(@");
                assert("(@"@.len() == 2);
            }
            match rfind_char(ar, ')') {
                Some(pe) => {
                    proof {
                        lemma_rfind_occurs(ar@, seq![')']);
                    }
                    if ps < pe {
                        let iv = slice_chars(ar, ps + 1, pe);
                        ExecAction::Instruction(
                            CfgInstruction::Alias {
                                lhs,
                                kind: AliasKind::Ivar(string_from_chars(&iv)),
                            },
                        )
                    } else {
                        ExecAction::Unreadable
                    }
                },
                None => ExecAction::Unreadable,
            }
        } else {
            let end = match rfind_char(ar, '>') {
                Some(e) => e,
                None => ar.len(),
            };
            proof {
                lemma_rfind_occurs(ar@, seq!['>']);
            }
            if 3 <= end {
                let cn = slice_chars(ar, 3, end);
                ExecAction::Instruction(
                    CfgInstruction::Alias { lhs, kind: AliasKind::Constant(string_from_chars(&cn)) },
                )
            } else {
                ExecAction::Unreadable
            }
        }
    } else if starts_with_str(ar, "@") {
        ExecAction::Instruction(
            CfgInstruction::Alias { lhs, kind: AliasKind::Ivar(string_from_chars(ar)) },
        )
    } else {
        ExecAction::Instruction(
            CfgInstruction::Alias { lhs, kind: AliasKind::Constant(string_from_chars(ar)) },
        )
    }
}

/// `blockreturn<name> <value>`.
fn blockreturn_action(rhs: &Vec<char>) -> (r: ExecAction)
    ensures
        r@ == spec_blockreturn_action(rhs@),
{
    proof {
        reveal_strlit("blockreturn<");
        assert("blockreturn<"@.len() == 12);
    }
    let ea = match find_char(rhs, '>') {
        Some(e) => e,
        None => rhs.len(),
    };
    proof {
        lemma_find_occurs(rhs@, seq!['>']);
    }
    if 12 <= ea && rhs.len() > 0 && ea < rhs.len() - 1 && is_ascii(rhs[ea + 1]) {
        let bn = slice_chars(rhs, 12, ea);
        let vt = skip(rhs, ea + 2);
        ExecAction::Instruction(
            CfgInstruction::BlockReturn { block_name: string_from_chars(&bn), value: parse_typed_var(&vt) },
        )
    } else {
        ExecAction::Unreadable
    }
}

/// `yield_load_arg(...)`, given what follows the opening parenthesis.
fn yield_action(lhs: CfgVar, after: &Vec<char>) -> (r: ExecAction)
    ensures
        r@ == spec_yield_action(lhs@, after@),
{
    let inner = strip_suffix_or_keep_str(after, ")");
    match find_str(&inner, ", ") {
        Some(c) => {
            proof {
                lemma_find_occurs(inner@, ", "@);
                reveal_strlit(", ");
                assert(", "@.len() == 2);
            }
            let it = take(&inner, c);
            let index = match parse_usize(&it) {
                Some(n) => n,
                None => 0,
            };
            let st = skip(&inner, c + 2);
            ExecAction::Instruction(
                CfgInstruction::YieldLoadArg { lhs, index, source: parse_typed_var(&st) },
            )
        },
        None => ExecAction::Nothing,
    }
}

/// `Solve<...>`, given what follows `Solve<`.
fn solve_action(lhs: CfgVar, after: &Vec<char>) -> (r: ExecAction)
    ensures
        r@ == spec_solve_action(lhs@, after@),
{
    let inner = strip_suffix_or_keep_str(after, ">");
    match rfind_str(&inner, ", ") {
        Some(c) => {
            proof {
                lemma_rfind_occurs(inner@, ", "@);
                reveal_strlit(", ");
                assert(", "@.len() == 2);
            }
            let n = inner.len();
            assert(c + 2 <= n);
            let t = take(&inner, c);
            let b = skip(&inner, c + 2);
            ExecAction::Instruction(
                CfgInstruction::Solve {
                    lhs,
                    temp: string_from_chars(&t),
                    block_name: string_from_chars(&b),
                },
            )
        },
        None => ExecAction::Nothing,
    }
}

/// A literal, a method call, or an assignment from another variable.
fn value_action(lhs: CfgVar, rhs: &Vec<char>) -> (r: ExecAction)
    ensures
        r@ == spec_value_action(lhs@, rhs@),
{
    proof {
        reveal_strlit(":");
        reveal_strlit(".");
        reveal_strlit("\"");
        assert(":"@ =~= seq![':']);
        assert("."@ =~= seq!['.']);
        assert("\""@ =~= seq!['"']);
    }
    let lit = (starts_with_str(rhs, ":") && !contains_str(rhs, ".")) || starts_with_str(rhs, "\"")
        || eq_str(rhs, "nil") || eq_str(rhs, "true") || eq_str(rhs, "false") || (rhs.len() > 0
        && '0' <= rhs[0] && rhs[0] <= '9' && !contains_str(rhs, ":"));
    if lit {
        return ExecAction::Instruction(
            CfgInstruction::Literal { lhs, value: string_from_chars(rhs) },
        );
    }
    match try_parse_method_call(rhs) {
        CallScan::Call(receiver, method_name, args) => ExecAction::Instruction(
            CfgInstruction::MethodCall { lhs, receiver, method_name, args },
        ),
        CallScan::Unfinished => ExecAction::Unreadable,
        CallScan::NotCall => ExecAction::Instruction(
            CfgInstruction::Assignment { lhs, rhs: string_from_chars(rhs) },
        ),
    }
}

/// The argument of `head(<arg>)`, given what follows `head(`.
fn paren_arg_string(after: &Vec<char>) -> (r: String)
    ensures
        r@ == paren_arg(after@),
{
    let a = strip_suffix_or_keep_str(after, ")");
    string_from_chars(&a)
}

/// Reads the right-hand side of `lhs = rhs`.
fn rhs_action(lhs: CfgVar, rhs: &Vec<char>) -> (r: ExecAction)
    ensures
        r@ == spec_rhs_action(lhs@, rhs@),
{
    if let Some(after) = strip_prefix_str(rhs, "cast(") {
        return cast_action(lhs, &after);
    }
    if let Some(ar) = strip_prefix_str(rhs, "alias ") {
        return alias_action(lhs, &ar);
    }
    if let Some(inner) = strip_prefix_str(rhs, "load_arg(") {
        return ExecAction::Instruction(
            CfgInstruction::LoadArg { lhs, arg_name: paren_arg_string(&inner) },
        );
    }
    if let Some(inner) = strip_prefix_str(rhs, "arg_present(") {
        return ExecAction::Instruction(
            CfgInstruction::ArgPresent { lhs, arg_name: paren_arg_string(&inner) },
        );
    }
    if let Some(v) = strip_prefix_str(rhs, "return ") {
        return ExecAction::Instruction(CfgInstruction::Return { value: parse_typed_var(&v) });
    }
    if starts_with_str(rhs, "blockreturn<") {
        return blockreturn_action(rhs);
    }
    if eq_str(rhs, "<get-current-exception>") {
        return ExecAction::Instruction(CfgInstruction::GetCurrentException { lhs });
    }
    if let Some(inner) = strip_prefix_str(rhs, "loadSelf(") {
        return ExecAction::Instruction(
            CfgInstruction::LoadSelf { lhs, block_name: paren_arg_string(&inner) },
        );
    }
    if let Some(inner) = strip_prefix_str(rhs, "load_yield_params(") {
        return ExecAction::Instruction(
            CfgInstruction::LoadYieldParams { lhs, block_name: paren_arg_string(&inner) },
        );
    }
    if let Some(after) = strip_prefix_str(rhs, "yield_load_arg(") {
        return yield_action(lhs, &after);
    }
    if let Some(after) = strip_prefix_str(rhs, "Solve<") {
        return solve_action(lhs, &after);
    }
    if let Some(v) = strip_prefix_str(rhs, "<keep-alive> ") {
        return ExecAction::Instruction(
            CfgInstruction::KeepAlive { lhs, var: string_from_chars(&v) },
        );
    }
    value_action(lhs, rhs)
}

/// Reads one instruction line (without its four-space indent).
pub fn parse_instruction_line(line: &Vec<char>) -> (r: ExecAction)
    ensures
        r@ == spec_instr_action(line@),
{
    if let Some(rest) = strip_prefix_str(line, "<unconditional> -> bb") {
        let target = match parse_usize(&rest) {
            Some(t) => t,
            None => 0,
        };
        return ExecAction::Terminator(CfgTerminator::Unconditional { target });
    }
    if starts_with_str(line, "<block-call> -> ") {
        return match parse_branch_targets(line) {
            Some((t, f)) => ExecAction::Terminator(
                CfgTerminator::BlockCall { true_bb: t, false_bb: f },
            ),
            None => ExecAction::Nothing,
        };
    }
    if contains_str(line, " -> (") && contains_str(line, " ? bb") {
        let a = find_str(line, " -> (").unwrap();
        proof {
            lemma_find_occurs(line@, " -> ("@);
        }
        let head = take(line, a);
        let var = parse_typed_var(&head);
        return match parse_branch_targets(line) {
            Some((t, f)) => ExecAction::Terminator(
                CfgTerminator::Conditional { var, true_bb: t, false_bb: f },
            ),
            None => ExecAction::Nothing,
        };
    }
    match find_top_level_eq(line) {
        None => ExecAction::Nothing,
        Some(e) => {
            proof {
                lemma_first_where(line@.len() as int, top_eq_at(line@), 0);
            }
            let n = line.len();
            assert(e + 3 <= n);
            let lt = take(line, e);
            let lhs = parse_typed_var(&lt);
            let rhs = skip(line, e + 3);
            rhs_action(lhs, &rhs)
        },
    }
}


// ---------------------------------------------------------------------------
// Basic-block headers
// ---------------------------------------------------------------------------

/// A basic-block header `bb<N>[firstDead=<M>](<params>):` read from a line.
pub enum HeaderModel {
    Header { id: usize, first_dead: i32, params: Seq<VarModel> },
    Invalid,
    Unreadable,
}

/// The parameters between the header's first `(` and last `)`.
pub open spec fn header_params(rest: Seq<char>, fd: i32, id: usize) -> HeaderModel {
    match spec_find(rest, seq!['(']) {
        None => HeaderModel::Header { id, first_dead: fd, params: seq![] },
        Some(ps) => match spec_rfind(rest, seq![')']) {
            None => HeaderModel::Invalid,
            Some(pe) => if ps + 1 <= pe {
                let p = rest.subrange(ps + 1, pe);
                HeaderModel::Header {
                    id,
                    first_dead: fd,
                    params: if p.len() == 0 {
                        seq![]
                    } else {
                        spec_typed_var_list(p)
                    },
                }
            } else {
                HeaderModel::Unreadable
            },
        },
    }
}

/// What a basic-block header line holds.
pub open spec fn spec_bb_header(line: Seq<char>) -> HeaderModel {
    match spec_strip_prefix(line, "bb"@) {
        None => HeaderModel::Invalid,
        Some(rest) => match spec_find(rest, seq!['[']) {
            None => HeaderModel::Invalid,
            Some(bp) => match spec_parse_usize(rest.take(bp)) {
                None => HeaderModel::Invalid,
                Some(id) => match spec_find(rest, "firstDead="@) {
                    None => HeaderModel::Invalid,
                    Some(f0) => {
                        let fds = f0 + "firstDead="@.len();
                        match spec_find(rest.skip(fds), seq![']']) {
                            None => HeaderModel::Invalid,
                            Some(f1) => match spec_parse_i32(rest.subrange(fds, f1 + fds)) {
                                None => HeaderModel::Invalid,
                                Some(fd) => header_params(rest, fd, id),
                            },
                        }
                    },
                },
            },
        },
    }
}

/// Executable counterpart of [`HeaderModel`].
pub enum ExecHeader {
    Header(usize, i32, Vec<CfgVar>),
    Invalid,
    Unreadable,
}

impl View for ExecHeader {
    type V = HeaderModel;

    open spec fn view(&self) -> HeaderModel {
        match self {
            ExecHeader::Header(id, fd, ps) => HeaderModel::Header {
                id: *id,
                first_dead: *fd,
                params: var_models(ps@),
            },
            ExecHeader::Invalid => HeaderModel::Invalid,
            ExecHeader::Unreadable => HeaderModel::Unreadable,
        }
    }
}

fn parse_header_params(rest: &Vec<char>, fd: i32, id: usize) -> (r: ExecHeader)
    ensures
        r@ == header_params(rest@, fd, id),
{
    match find_char(rest, '(') {
        None => {
            let v: Vec<CfgVar> = Vec::new();
            assert(var_models(v@) =~= seq![]);
            ExecHeader::Header(id, fd, v)
        },
        Some(ps) => match rfind_char(rest, ')') {
            None => ExecHeader::Invalid,
            Some(pe) => {
                proof {
                    lemma_find_occurs(rest@, seq!['(']);
                    lemma_rfind_occurs(rest@, seq![')']);
                }
                if ps < pe {
                    let p = slice_chars(rest, ps + 1, pe);
                    let params = if p.len() == 0 {
                        Vec::new()
                    } else {
                        parse_typed_var_list(&p)
                    };
                    assert(var_models(params@) =~= (if p@.len() == 0 {
                        seq![]
                    } else {
                        spec_typed_var_list(p@)
                    }));
                    ExecHeader::Header(id, fd, params)
                } else {
                    ExecHeader::Unreadable
                }
            },
        },
    }
}

/// Reads a basic-block header line.
pub fn parse_bb_header(line: &Vec<char>) -> (r: ExecHeader)
    ensures
        r@ == spec_bb_header(line@),
{
    let rest = match strip_prefix_str(line, "bb") {
        Some(r) => r,
        None => return ExecHeader::Invalid,
    };
    let bp = match find_char(&rest, '[') {
        Some(b) => b,
        None => return ExecHeader::Invalid,
    };
    proof {
        lemma_find_occurs(rest@, seq!['[']);
    }
    let idt = take(&rest, bp);
    let id = match parse_usize(&idt) {
        Some(i) => i,
        None => return ExecHeader::Invalid,
    };
    let f0o = find_str(&rest, "firstDead=");
    if f0o.is_none() {
        return ExecHeader::Invalid;
    }
    let f0 = f0o.unwrap();
    let n = rest.len();
    proof {
        lemma_find_occurs(rest@, "firstDead="@);
        reveal_strlit("firstDead=");
        assert("firstDead="@.len() == 10);
        assert(f0 + 10 <= n);
    }
    let fds = f0 + 10;
    let after = skip(&rest, fds);
    let f1o = find_char(&after, ']');
    if f1o.is_none() {
        return ExecHeader::Invalid;
    }
    let f1 = f1o.unwrap();
    proof {
        lemma_find_occurs(after@, seq![']']);
    }
    let fdt = slice_chars(&rest, fds, f1 + fds);
    let fd = match parse_i32(&fdt) {
        Some(v) => v,
        None => return ExecHeader::Invalid,
    };
    parse_header_params(&rest, fd, id)
}

// ---------------------------------------------------------------------------
// Reading a whole output
// ---------------------------------------------------------------------------

/// A basic block while its lines are being read.
pub struct BuilderModel {
    pub id: usize,
    pub first_dead: i32,
    pub params: Seq<VarModel>,
    pub instructions: Seq<InstrModel>,
    pub terminator: Option<TermModel>,
    pub backedges: Seq<usize>,
}

/// The finished block; a block without a terminator line jumps to `bb0`.
pub open spec fn finish_block(b: BuilderModel) -> BlockModel {
    BlockModel {
        id: b.id,
        first_dead: b.first_dead,
        params: b.params,
        instructions: b.instructions,
        terminator: match b.terminator {
            Some(t) => t,
            None => TermModel::Unconditional { target: 0 },
        },
        backedges: b.backedges,
    }
}

/// A method while its body is being read: the finished blocks, the block
/// being read, and the back edges listed for the next block.
pub struct BodyModel {
    pub raw_name: Seq<char>,
    pub blocks: Seq<BlockModel>,
    pub current: Option<BuilderModel>,
    pub pending: Seq<usize>,
}

/// The method a body yields when it ends.
pub open spec fn close_body(b: BodyModel) -> MethodModel {
    MethodModel {
        raw_name: b.raw_name,
        blocks: match b.current {
            Some(c) => b.blocks.push(finish_block(c)),
            None => b.blocks,
        },
    }
}

/// The state of the reader between lines.
pub struct ReadState {
    pub methods: Seq<MethodModel>,
    pub body: Option<BodyModel>,
}

/// The result of reading one line within a method body.
pub enum BodyStep {
    Continue(BodyModel),
    Failed(ErrorModel),
    Unreadable,
}

/// The result of reading one line.
pub enum ReadStep {
    Continue(ReadState),
    Failed(ErrorModel),
    Unreadable,
}

/// The error for a malformed header on line `line_no` (0-based).
pub open spec fn header_error(line_no: int, line: Seq<char>) -> ErrorModel {
    ErrorModel { line: (line_no + 1) as usize, message: "invalid BB header: "@ + line }
}

/// A block with one instruction line applied.
pub open spec fn apply_action(c: BuilderModel, a: LineAction) -> Option<BuilderModel> {
    match a {
        LineAction::Nothing => Some(c),
        LineAction::Terminator(t) => Some(BuilderModel { terminator: Some(t), ..c }),
        LineAction::Instruction(i) => Some(
            BuilderModel { instructions: c.instructions.push(i), ..c },
        ),
        LineAction::Unreadable => None,
    }
}

/// One line read within a method body.
pub open spec fn body_step(b: BodyModel, line_no: int, line: Seq<char>) -> BodyStep {
    if line.len() == 0 || has_prefix(line, "    # outerLoops:"@) {
        BodyStep::Continue(b)
    } else if has_prefix(line, "bb"@) && spec_contains(line, "[firstDead="@) {
        let blocks = match b.current {
            Some(c) => b.blocks.push(finish_block(c)),
            None => b.blocks,
        };
        match spec_bb_header(line) {
            HeaderModel::Header { id, first_dead, params } => BodyStep::Continue(
                BodyModel {
                    raw_name: b.raw_name,
                    blocks,
                    current: Some(
                        BuilderModel {
                            id,
                            first_dead,
                            params,
                            instructions: seq![],
                            terminator: None,
                            backedges: b.pending,
                        },
                    ),
                    pending: seq![],
                },
            ),
            HeaderModel::Invalid => BodyStep::Failed(header_error(line_no, line)),
            HeaderModel::Unreadable => BodyStep::Unreadable,
        }
    } else if line == "# backedges"@ {
        BodyStep::Continue(b)
    } else if has_prefix(line, "# - bb"@) {
        match spec_parse_usize(line.skip("# - bb"@.len() as int)) {
            Some(id) => BodyStep::Continue(BodyModel { pending: b.pending.push(id), ..b }),
            None => BodyStep::Continue(b),
        }
    } else if has_prefix(line, "    "@) {
        match b.current {
            None => BodyStep::Continue(b),
            Some(c) => match apply_action(c, spec_instr_action(line.skip("    "@.len() as int))) {
                Some(c2) => BodyStep::Continue(BodyModel { current: Some(c2), ..b }),
                None => BodyStep::Unreadable,
            },
        }
    } else {
        BodyStep::Continue(b)
    }
}

/// One line read, with `line_no` its 0-based index.
pub open spec fn read_step(st: ReadState, line_no: int, line: Seq<char>) -> ReadStep {
    match st.body {
        None => match spec_strip_prefix(line, "method "@) {
            Some(name) => ReadStep::Continue(
                ReadState {
                    methods: st.methods,
                    body: Some(
                        BodyModel {
                            raw_name: strip_suffix_or_keep(name, " {"@),
                            blocks: seq![],
                            current: None,
                            pending: seq![],
                        },
                    ),
                },
            ),
            None => ReadStep::Continue(st),
        },
        Some(b) => if line == "}"@ {
            ReadStep::Continue(ReadState { methods: st.methods.push(close_body(b)), body: None })
        } else {
            match body_step(b, line_no, line) {
                BodyStep::Continue(b2) => ReadStep::Continue(
                    ReadState { methods: st.methods, body: Some(b2) },
                ),
                BodyStep::Failed(e) => ReadStep::Failed(e),
                BodyStep::Unreadable => ReadStep::Unreadable,
            }
        },
    }
}

/// The lines from index `i` on read from state `st`.
pub open spec fn read_from(lines: Seq<Seq<char>>, i: int, st: ReadState) -> ReadStep
    decreases lines.len() - i,
{
    if i >= lines.len() || i < 0 {
        ReadStep::Continue(st)
    } else {
        match read_step(st, i, lines[i]) {
            ReadStep::Continue(st2) => read_from(lines, i + 1, st2),
            other => other,
        }
    }
}

/// The methods read once the input ends; a method whose closing brace is
/// missing ends with the input.
pub open spec fn finish_read(st: ReadState) -> Seq<MethodModel> {
    match st.body {
        Some(b) => st.methods.push(close_body(b)),
        None => st.methods,
    }
}

/// What reading a whole cfg-text output yields.
pub enum CfgOutcome {
    Parsed(Seq<MethodModel>),
    Failed(ErrorModel),
    Unreadable,
}

/// The reader before the first line.
pub open spec fn initial_read_state() -> ReadState {
    ReadState { methods: seq![], body: None }
}

/// What reading the cfg-text output `input` yields.
pub open spec fn spec_parse_cfg(input: Seq<char>) -> CfgOutcome {
    match read_from(spec_lines(input), 0, initial_read_state()) {
        ReadStep::Continue(st) => CfgOutcome::Parsed(finish_read(st)),
        ReadStep::Failed(e) => CfgOutcome::Failed(e),
        ReadStep::Unreadable => CfgOutcome::Unreadable,
    }
}


/// A basic block whose lines are being read.
struct BbBuilder {
    id: usize,
    first_dead: i32,
    params: Vec<CfgVar>,
    instructions: Vec<CfgInstruction>,
    terminator: Option<CfgTerminator>,
    backedges: Vec<usize>,
}

impl View for BbBuilder {
    type V = BuilderModel;

    closed spec fn view(&self) -> BuilderModel {
        BuilderModel {
            id: self.id,
            first_dead: self.first_dead,
            params: var_models(self.params@),
            instructions: instr_models(self.instructions@),
            terminator: match self.terminator {
                Some(t) => Some(t@),
                None => None,
            },
            backedges: self.backedges@,
        }
    }
}

impl BbBuilder {
    fn finish(self) -> (r: CfgBasicBlock)
        ensures
            r@ == finish_block(self@),
    {
        let terminator = match self.terminator {
            Some(t) => t,
            None => CfgTerminator::Unconditional { target: 0 },
        };
        CfgBasicBlock {
            id: self.id,
            first_dead: self.first_dead,
            params: self.params,
            instructions: self.instructions,
            terminator,
            backedges: self.backedges,
        }
    }
}

/// A method whose body is being read.
struct BodyReader {
    raw_name: String,
    blocks: Vec<CfgBasicBlock>,
    current: Option<BbBuilder>,
    pending: Vec<usize>,
}

impl View for BodyReader {
    type V = BodyModel;

    closed spec fn view(&self) -> BodyModel {
        BodyModel {
            raw_name: self.raw_name@,
            blocks: block_models(self.blocks@),
            current: match self.current {
                Some(c) => Some(c@),
                None => None,
            },
            pending: self.pending@,
        }
    }
}

impl BodyReader {
    fn close(self) -> (r: CfgMethod)
        ensures
            r@ == close_body(self@),
    {
        let mut blocks = self.blocks;
        match self.current {
            Some(c) => {
                let ghost prev = blocks@;
                let f = c.finish();
                blocks.push(f);
                assert(block_models(blocks@) =~= block_models(prev).push(f@));
            },
            None => {},
        }
        CfgMethod { raw_name: self.raw_name, blocks }
    }
}

/// The reader between lines.
struct Reader {
    methods: Vec<CfgMethod>,
    body: Option<BodyReader>,
}

impl View for Reader {
    type V = ReadState;

    closed spec fn view(&self) -> ReadState {
        ReadState {
            methods: method_models(self.methods@),
            body: match self.body {
                Some(b) => Some(b@),
                None => None,
            },
        }
    }
}

enum ExecBodyStep {
    Continue(BodyReader),
    Failed(CfgParseError),
    Unreadable,
}

impl View for ExecBodyStep {
    type V = BodyStep;

    closed spec fn view(&self) -> BodyStep {
        match self {
            ExecBodyStep::Continue(b) => BodyStep::Continue(b@),
            ExecBodyStep::Failed(e) => BodyStep::Failed(e@),
            ExecBodyStep::Unreadable => BodyStep::Unreadable,
        }
    }
}

enum ExecReadStep {
    Continue(Reader),
    Failed(CfgParseError),
    Unreadable,
}

impl View for ExecReadStep {
    type V = ReadStep;

    closed spec fn view(&self) -> ReadStep {
        match self {
            ExecReadStep::Continue(b) => ReadStep::Continue(b@),
            ExecReadStep::Failed(e) => ReadStep::Failed(e@),
            ExecReadStep::Unreadable => ReadStep::Unreadable,
        }
    }
}

/// The error for a malformed header on line `line_no` (0-based).
fn make_header_error(line_no: usize, line: &Vec<char>) -> (r: CfgParseError)
    requires
        line_no < usize::MAX,
    ensures
        r@ == header_error(line_no as int, line@),
{
    let mut m = to_chars("invalid BB header: ");
    append(&mut m, line);
    CfgParseError::ParseError { line: line_no + 1, message: string_from_chars(&m) }
}

/// Applies one instruction line to the block being read.
fn apply_instruction_line(mut c: BbBuilder, il: &Vec<char>) -> (r: Option<BbBuilder>)
    ensures
        match r {
            Some(c2) => apply_action(c@, spec_instr_action(il@)) == Some(c2@),
            None => apply_action(c@, spec_instr_action(il@)) is None,
        },
{
    match parse_instruction_line(il) {
        ExecAction::Nothing => Some(c),
        ExecAction::Terminator(t) => {
            c.terminator = Some(t);
            Some(c)
        },
        ExecAction::Instruction(i) => {
            let ghost prev = c.instructions@;
            c.instructions.push(i);
            assert(instr_models(c.instructions@) =~= instr_models(prev).push(i@));
            Some(c)
        },
        ExecAction::Unreadable => None,
    }
}

/// One line read within a method body.
fn body_step_exec(b: BodyReader, line_no: usize, line: &Vec<char>) -> (r: ExecBodyStep)
    requires
        line_no < usize::MAX,
    ensures
        r@ == body_step(b@, line_no as int, line@),
{
    let mut b = b;
    if line.len() == 0 || starts_with_str(line, "    # outerLoops:") {
        return ExecBodyStep::Continue(b);
    }
    if starts_with_str(line, "bb") && contains_str(line, "[firstDead=") {
        let BodyReader { raw_name, mut blocks, current, pending } = b;
        let ghost prev = blocks@;
        match current {
            Some(c) => {
                let f = c.finish();
                blocks.push(f);
                assert(block_models(blocks@) =~= block_models(prev).push(f@));
            },
            None => {},
        }
        return match parse_bb_header(line) {
            ExecHeader::Header(id, first_dead, params) => {
                let nb = BbBuilder {
                    id,
                    first_dead,
                    params,
                    instructions: Vec::new(),
                    terminator: None,
                    backedges: pending,
                };
                assert(instr_models(nb.instructions@) =~= seq![]);
                let np: Vec<usize> = Vec::new();
                ExecBodyStep::Continue(
                    BodyReader { raw_name, blocks, current: Some(nb), pending: np },
                )
            },
            ExecHeader::Invalid => ExecBodyStep::Failed(make_header_error(line_no, line)),
            ExecHeader::Unreadable => ExecBodyStep::Unreadable,
        };
    }
    if eq_str(line, "# backedges") {
        return ExecBodyStep::Continue(b);
    }
    if let Some(rest) = strip_prefix_str(line, "# - bb") {
        match parse_usize(&rest) {
            Some(id) => {
                b.pending.push(id);
            },
            None => {},
        }
        return ExecBodyStep::Continue(b);
    }
    if let Some(il) = strip_prefix_str(line, "    ") {
        let BodyReader { raw_name, blocks, current, pending } = b;
        return match current {
            None => ExecBodyStep::Continue(BodyReader { raw_name, blocks, current: None, pending }),
            Some(c) => match apply_instruction_line(c, &il) {
                Some(c2) => ExecBodyStep::Continue(
                    BodyReader { raw_name, blocks, current: Some(c2), pending },
                ),
                None => ExecBodyStep::Unreadable,
            },
        };
    }
    ExecBodyStep::Continue(b)
}

/// One line read, with `line_no` its 0-based index.
fn read_step_exec(st: Reader, line_no: usize, line: &Vec<char>) -> (r: ExecReadStep)
    requires
        line_no < usize::MAX,
    ensures
        r@ == read_step(st@, line_no as int, line@),
{
    let Reader { mut methods, body } = st;
    match body {
        None => match strip_prefix_str(line, "method ") {
            Some(name) => {
                let n2 = strip_suffix_or_keep_str(&name, " {");
                let nb = BodyReader {
                    raw_name: string_from_chars(&n2),
                    blocks: Vec::new(),
                    current: None,
                    pending: Vec::new(),
                };
                assert(block_models(nb.blocks@) =~= seq![]);
                ExecReadStep::Continue(Reader { methods, body: Some(nb) })
            },
            None => ExecReadStep::Continue(Reader { methods, body: None }),
        },
        Some(b) => if eq_str(line, "}") {
            let ghost prev = methods@;
            let m = b.close();
            methods.push(m);
            assert(method_models(methods@) =~= method_models(prev).push(m@));
            ExecReadStep::Continue(Reader { methods, body: None })
        } else {
            match body_step_exec(b, line_no, line) {
                ExecBodyStep::Continue(b2) => ExecReadStep::Continue(
                    Reader { methods, body: Some(b2) },
                ),
                ExecBodyStep::Failed(e) => ExecReadStep::Failed(e),
                ExecBodyStep::Unreadable => ExecReadStep::Unreadable,
            }
        },
    }
}

/// Executable counterpart of [`CfgOutcome`].
enum ExecOutcome {
    Parsed(Vec<CfgMethod>),
    Failed(CfgParseError),
    Unreadable,
}

/// Reads a whole cfg-text output.
fn read_cfg(input: &str) -> (r: ExecOutcome)
    ensures
        match r {
            ExecOutcome::Parsed(ms) => spec_parse_cfg(input@) == CfgOutcome::Parsed(
                method_models(ms@),
            ),
            ExecOutcome::Failed(e) => spec_parse_cfg(input@) == CfgOutcome::Failed(e@),
            ExecOutcome::Unreadable => spec_parse_cfg(input@) is Unreadable,
        },
{
    let chars = to_chars(input);
    let ls = lines(&chars);
    let ghost l = views(ls@);
    let mut st = Reader { methods: Vec::new(), body: None };
    assert(st@ == initial_read_state()) by {
        assert(method_models(st.methods@) =~= seq![]);
    }
    let mut i: usize = 0;
    while i < ls.len()
        invariant
            i <= ls.len(),
            l == views(ls@),
            l == spec_lines(input@),
            read_from(l, 0, initial_read_state()) == read_from(l, i as int, st@),
        decreases ls.len() - i,
    {
        assert(l[i as int] == ls@[i as int]@);
        match read_step_exec(st, i, &ls[i]) {
            ExecReadStep::Continue(s2) => {
                st = s2;
            },
            ExecReadStep::Failed(e) => {
                return ExecOutcome::Failed(e);
            },
            ExecReadStep::Unreadable => {
                return ExecOutcome::Unreadable;
            },
        }
        i += 1;
    }
    let Reader { mut methods, body } = st;
    match body {
        Some(b) => {
            let ghost prev = methods@;
            let m = b.close();
            methods.push(m);
            assert(method_models(methods@) =~= method_models(prev).push(m@));
        },
        None => {},
    }
    ExecOutcome::Parsed(methods)
}

/// Reads Sorbet's cfg-text output into its methods and basic blocks.
///
/// A malformed basic-block header is reported with its 1-based line number.
pub fn parse(input: &str) -> (r: Result<Vec<CfgMethod>, CfgParseError>)
    requires
        !(spec_parse_cfg(input@) is Unreadable),
    ensures
        match r {
            Ok(ms) => spec_parse_cfg(input@) == CfgOutcome::Parsed(method_models(ms@)),
            Err(e) => spec_parse_cfg(input@) == CfgOutcome::Failed(e@),
        },
{
    match read_cfg(input) {
        ExecOutcome::Parsed(ms) => Ok(ms),
        ExecOutcome::Failed(e) => Err(e),
        ExecOutcome::Unreadable => Ok(Vec::new()),
    }
}

/// Whether reading `input` finishes, with methods or with an error: it does
/// not when an instruction or header asks for a slice of a line that is out
/// of range or splits a multi-byte character.
pub fn parse_completes(input: &str) -> (r: bool)
    ensures
        r == !(spec_parse_cfg(input@) is Unreadable),
{
    match read_cfg(input) {
        ExecOutcome::Unreadable => false,
        _ => true,
    }
}


// ---------------------------------------------------------------------------
// Laws
// ---------------------------------------------------------------------------

/// `n` is the name a `method ` header line among `lines` gives: what
/// follows `method `, without a trailing ` {`.
pub open spec fn header_name(lines: Seq<Seq<char>>, n: Seq<char>) -> bool {
    exists|j: int|
        0 <= j < lines.len() && #[trigger] spec_strip_prefix(lines[j], "method "@) is Some
            && strip_suffix_or_keep(spec_strip_prefix(lines[j], "method "@)->0, " {"@) == n
}

/// Every method of a reader state, finished or open, is named by a header.
pub open spec fn names_from_headers(lines: Seq<Seq<char>>, st: ReadState) -> bool {
    &&& forall|k: int|
        0 <= k < st.methods.len() ==> header_name(lines, (#[trigger] st.methods[k]).raw_name)
    &&& (st.body matches Some(b) ==> header_name(lines, b.raw_name))
}

proof fn lemma_body_step_name(b: BodyModel, line_no: int, line: Seq<char>)
    ensures
        body_step(b, line_no, line) matches BodyStep::Continue(b2) ==> b2.raw_name == b.raw_name,
{
}

proof fn lemma_read_from_names(lines: Seq<Seq<char>>, i: int, st: ReadState)
    requires
        0 <= i <= lines.len(),
        names_from_headers(lines, st),
    ensures
        read_from(lines, i, st) matches ReadStep::Continue(st2) ==> names_from_headers(lines, st2),
    decreases lines.len() - i,
{
    if i < lines.len() {
        let line = lines[i];
        match read_step(st, i, line) {
            ReadStep::Continue(st2) => {
                match st.body {
                    None => {
                        if spec_strip_prefix(line, "method "@) is Some {
                            assert(spec_strip_prefix(lines[i], "method "@) is Some);
                        }
                    },
                    Some(b) => {
                        if line == "}"@ {
                            assert forall|k: int| 0 <= k < st2.methods.len() implies header_name(
                                lines,
                                (#[trigger] st2.methods[k]).raw_name,
                            ) by {
                                if k < st.methods.len() {
                                    assert(st2.methods[k] == st.methods[k]);
                                }
                            }
                        } else {
                            lemma_body_step_name(b, i, line);
                        }
                    },
                }
                assert(names_from_headers(lines, st2));
                lemma_read_from_names(lines, i + 1, st2);
            },
            _ => {},
        }
    }
}

/// Every method read from a cfg-text output is named by one of its
/// `method NAME {` header lines.
pub proof fn lemma_cfg_method_names(input: Seq<char>)
    ensures
        spec_parse_cfg(input) matches CfgOutcome::Parsed(ms) ==> forall|k: int|
            0 <= k < ms.len() ==> header_name(spec_lines(input), (#[trigger] ms[k]).raw_name),
{
    let ls = spec_lines(input);
    lemma_read_from_names(ls, 0, initial_read_state());
    match read_from(ls, 0, initial_read_state()) {
        ReadStep::Continue(st) => {
            let ms = finish_read(st);
            assert forall|k: int| 0 <= k < ms.len() implies header_name(
                ls,
                (#[trigger] ms[k]).raw_name,
            ) by {
                if k < st.methods.len() {
                    assert(ms[k] == st.methods[k]);
                }
            }
        },
        _ => {},
    }
}

} // verus!

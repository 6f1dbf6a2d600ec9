//! How a method is shown: as readable text, or as one line of JSON.
use vstd::prelude::*;

use crate::model::{
    ArgModel, BlockView, CallModel, ClassInfo, ClassModel, CondModel, InfoModel, IvarModel,
    MethodInfo, Project, TermView, Terminator, arg_models, lookup, block_views, call_models, cond_models, fqn_text,
    ivar_models, opt_text, texts,
};
use crate::sorbet_type::{render_type, type_text};
use crate::text::{
    append, append_str, join, join_chars, lines, spec_lines, string_from_chars, to_chars,
    trim_start, trim_start_chars, views,
};

verus! {

broadcast use {vstd::seq_lib::group_seq_properties, vstd::string::group_string_axioms};

// ---------------------------------------------------------------------------
// Numbers and lines
// ---------------------------------------------------------------------------

/// The decimal digit for `d`.
pub open spec fn digit_char(d: nat) -> char {
    if d == 0 {
        '0'
    } else if d == 1 {
        '1'
    } else if d == 2 {
        '2'
    } else if d == 3 {
        '3'
    } else if d == 4 {
        '4'
    } else if d == 5 {
        '5'
    } else if d == 6 {
        '6'
    } else if d == 7 {
        '7'
    } else if d == 8 {
        '8'
    } else {
        '9'
    }
}

/// `n` in decimal.
pub open spec fn dec(n: nat) -> Seq<char>
    decreases n,
{
    if n < 10 {
        seq![digit_char(n)]
    } else {
        dec(n / 10) + seq![digit_char(n % 10)]
    }
}

/// The digit for `d`.
fn digit(d: usize) -> (c: char)
    requires
        d < 10,
    ensures
        c == digit_char(d as nat),
{
    if d == 0 {
        '0'
    } else if d == 1 {
        '1'
    } else if d == 2 {
        '2'
    } else if d == 3 {
        '3'
    } else if d == 4 {
        '4'
    } else if d == 5 {
        '5'
    } else if d == 6 {
        '6'
    } else if d == 7 {
        '7'
    } else if d == 8 {
        '8'
    } else {
        '9'
    }
}

/// `n` in decimal.
pub fn decimal(n: usize) -> (r: Vec<char>)
    ensures
        r@ == dec(n as nat),
    decreases n,
{
    if n < 10 {
        let mut r: Vec<char> = Vec::new();
        r.push(digit(n));
        assert(r@ =~= seq![digit_char(n as nat)]);
        r
    } else {
        let mut r = decimal(n / 10);
        r.push(digit(n % 10));
        r
    }
}

/// The lines, each ended by a newline.
pub open spec fn lines_text(ls: Seq<Seq<char>>) -> Seq<char>
    decreases ls.len(),
{
    if ls.len() == 0 {
        seq![]
    } else {
        lines_text(ls.drop_last()) + ls.last() + seq!['\n']
    }
}

/// Appends every line of `xs`.
fn push_all(acc: &mut Vec<Vec<char>>, xs: Vec<Vec<char>>)
    ensures
        views(final(acc)@) == views(old(acc)@) + views(xs@),
{
    let ghost start = views(acc@);
    let ghost orig = views(xs@);
    let mut xs = xs;
    let mut rev: Vec<Vec<char>> = Vec::new();
    while xs.len() > 0
        invariant
            views(xs@) + views(rev@).reverse() == orig,
        decreases xs.len(),
    {
        let ghost pre = views(xs@);
        let x = xs.pop().unwrap();
        assert(views(xs@) == pre.drop_last());
        rev.push(x);
        assert(views(xs@) + views(rev@).reverse() =~= orig);
    }
    while rev.len() > 0
        invariant
            views(acc@) + views(rev@).reverse() == start + orig,
        decreases rev.len(),
    {
        let ghost pre = views(rev@);
        let x = rev.pop().unwrap();
        assert(views(rev@) == pre.drop_last());
        acc.push(x);
        assert(views(acc@) + views(rev@).reverse() =~= start + orig);
    }
    assert(views(rev@).reverse() =~= Seq::<Seq<char>>::empty());
}

/// The text of the lines, each ended by a newline.
fn join_lines(ls: &Vec<Vec<char>>) -> (r: String)
    ensures
        r@ == lines_text(views(ls@)),
{
    let mut out: Vec<char> = Vec::new();
    let mut i: usize = 0;
    while i < ls.len()
        invariant
            i <= ls.len(),
            out@ == lines_text(views(ls@).take(i as int)),
        decreases ls.len() - i,
    {
        assert(views(ls@).take(i + 1).drop_last() == views(ls@).take(i as int));
        append(&mut out, &ls[i]);
        out.push('\n');
        assert(out@ =~= lines_text(views(ls@).take(i + 1)));
        i += 1;
    }
    assert(views(ls@).take(ls.len() as int) == views(ls@));
    string_from_chars(&out)
}

// ---------------------------------------------------------------------------
// The text form
// ---------------------------------------------------------------------------

/// The line that opens a method.
pub open spec fn header_line(m: InfoModel) -> Seq<char> {
    "== "@ + fqn_text(m.fqn) + " =="@
}

/// The lines about the method's class: its name and superclass, its mixins
/// when it has any, and its file (with the line when known).
pub open spec fn class_lines(c: Option<ClassModel>) -> Seq<Seq<char>> {
    match c {
        None => seq![],
        Some(c) => seq![
            match c.super_class {
                Some(s) => "  class: "@ + c.fqn + " < "@ + s,
                None => "  class: "@ + c.fqn,
            },
        ] + (if c.mixins.len() > 0 {
            seq!["  mixins: "@ + join(c.mixins, ", "@)]
        } else {
            seq![]
        }) + match c.file_path {
            Some(p) => seq![
                match c.line {
                    Some(l) => "  defined: "@ + p + seq![':'] + dec(l as nat),
                    None => "  defined: "@ + p,
                },
            ],
            None => seq![],
        },
    }
}

/// The line giving where the method is defined, when both file and line
/// are known.
pub open spec fn location_lines(m: InfoModel) -> Seq<Seq<char>> {
    match m.file_path {
        Some(p) => match m.line {
            Some(l) => seq!["  source: "@ + p + seq![':'] + dec(l as nat)],
            None => seq![],
        },
        None => seq![],
    }
}

/// The line of one parameter.
pub open spec fn arg_line(a: ArgModel) -> Seq<char> {
    "    "@ + a.name + ": "@ + type_text(a.ty) + if a.is_optional {
        " (optional)"@
    } else {
        seq![]
    }
}

/// The lines of the parameters.
pub open spec fn arg_item_lines(args: Seq<ArgModel>) -> Seq<Seq<char>>
    decreases args.len(),
{
    if args.len() == 0 {
        seq![]
    } else {
        arg_item_lines(args.drop_last()).push(arg_line(args.last()))
    }
}

/// The line of one instance variable.
pub open spec fn ivar_line(x: IvarModel) -> Seq<char> {
    "    "@ + x.name + ": "@ + type_text(x.ty)
}

/// The lines of the instance variables.
pub open spec fn ivar_item_lines(xs: Seq<IvarModel>) -> Seq<Seq<char>>
    decreases xs.len(),
{
    if xs.len() == 0 {
        seq![]
    } else {
        ivar_item_lines(xs.drop_last()).push(ivar_line(xs.last()))
    }
}

/// A branch condition as `call = true` or `call = false`.
pub open spec fn cond_text(c: CondModel) -> Seq<char> {
    c.call + " = "@ + if c.is_true {
        "true"@
    } else {
        "false"@
    }
}

/// The texts of conditions.
pub open spec fn cond_texts(cs: Seq<CondModel>) -> Seq<Seq<char>>
    decreases cs.len(),
{
    if cs.len() == 0 {
        seq![]
    } else {
        cond_texts(cs.drop_last()).push(cond_text(cs.last()))
    }
}

/// The line of one call, with the conditions that lead to it.
pub open spec fn call_line(c: CallModel) -> Seq<char> {
    let head = "    "@ + type_text(c.receiver_type) + seq!['.'] + c.method_name + "() -> "@
        + type_text(c.return_type);
    if c.conditions.len() == 0 {
        head
    } else {
        head + "  when: "@ + join(cond_texts(c.conditions), ", "@)
    }
}

/// The lines of the calls.
pub open spec fn call_item_lines(cs: Seq<CallModel>) -> Seq<Seq<char>>
    decreases cs.len(),
{
    if cs.len() == 0 {
        seq![]
    } else {
        call_item_lines(cs.drop_last()).push(call_line(cs.last()))
    }
}

/// The line of one basic block.
pub open spec fn block_line(b: BlockView) -> Seq<char> {
    "    bb"@ + dec(b.id as nat) + match b.terminator {
        TermView::Goto(t) => " -> bb"@ + dec(t as nat),
        TermView::Branch { condition, true_bb, false_bb } => " -["@ + condition + "]-> true:bb"@
            + dec(true_bb as nat) + " / false:bb"@ + dec(false_bb as nat),
        TermView::BlockCall { true_bb, false_bb } => " -[block]-> true:bb"@ + dec(true_bb as nat)
            + " / false:bb"@ + dec(false_bb as nat),
        TermView::Return => " -> return"@,
    }
}

/// The lines of the basic blocks.
pub open spec fn block_item_lines(bs: Seq<BlockView>) -> Seq<Seq<char>>
    decreases bs.len(),
{
    if bs.len() == 0 {
        seq![]
    } else {
        block_item_lines(bs.drop_last()).push(block_line(bs.last()))
    }
}

/// A titled list: the title and the items, or nothing when there are no
/// items.
pub open spec fn titled(title: Seq<char>, items: Seq<Seq<char>>) -> Seq<Seq<char>> {
    if items.len() > 0 {
        seq![title] + items
    } else {
        seq![]
    }
}

/// The bytes a character takes in UTF-8.
pub open spec fn char_bytes(c: char) -> nat {
    if (c as u32) < 0x80 {
        1
    } else if (c as u32) < 0x800 {
        2
    } else if (c as u32) < 0x10000 {
        3
    } else {
        4
    }
}

/// The bytes a text takes in UTF-8.
pub open spec fn utf8_len(s: Seq<char>) -> nat
    decreases s.len(),
{
    if s.len() == 0 {
        0
    } else {
        utf8_len(s.drop_last()) + char_bytes(s.last())
    }
}

/// The bytes of a line's indentation.
pub open spec fn indent_bytes(s: Seq<char>) -> int {
    utf8_len(s) - utf8_len(trim_start(s))
}

/// A line that closes a definition indented by `indent` bytes: `end` at
/// that indentation.
pub open spec fn closes_at(line: Seq<char>, indent: int) -> bool {
    trim_start(line) == "end"@ && indent_bytes(line) == indent
}

/// The source lines from line `i` on, up to and including the first that
/// closes the definition, each indented by four spaces.
pub open spec fn snippet_from(ls: Seq<Seq<char>>, i: int, indent: int) -> Seq<Seq<char>>
    decreases ls.len() - i,
{
    if i < 0 || i >= ls.len() {
        seq![]
    } else {
        seq!["    "@ + ls[i]] + if closes_at(ls[i], indent) {
            seq![]
        } else {
            snippet_from(ls, i + 1, indent)
        }
    }
}

/// The source of the method, shown from its definition line to the `end`
/// at the same indentation: given when the source text is there and the
/// method's line is within it.
pub open spec fn source_lines(m: InfoModel, source: Option<Seq<char>>) -> Seq<Seq<char>> {
    match source {
        Some(s) => match m.file_path {
            Some(_) => match m.line {
                Some(start) => {
                    let ls = spec_lines(s);
                    if start > 0 && start <= ls.len() {
                        seq!["  source:"@] + snippet_from(
                            ls,
                            start - 1,
                            indent_bytes(ls[start - 1]),
                        )
                    } else {
                        seq![]
                    }
                },
                None => seq![],
            },
            None => seq![],
        },
        None => seq![],
    }
}

/// The lines that show a method: its name, its class, its location, its
/// parameters, return type, instance variables, calls, rescued exceptions,
/// block use and control-flow graph, its source when given, and an empty
/// line.
pub open spec fn method_lines(m: InfoModel, c: Option<ClassModel>, source: Option<Seq<char>>) -> Seq<
    Seq<char>,
> {
    seq![header_line(m)] + class_lines(c) + location_lines(m) + titled(
        "  args:"@,
        arg_item_lines(m.arguments),
    ) + match m.return_type {
        Some(t) => seq!["  returns: "@ + type_text(t)],
        None => seq![],
    } + titled("  ivars:"@, ivar_item_lines(m.ivars)) + titled(
        "  calls:"@,
        call_item_lines(m.calls),
    ) + (if m.rescues.len() > 0 {
        seq!["  rescues: "@ + join(m.rescues, ", "@)]
    } else {
        seq![]
    }) + (if m.uses_block {
        seq!["  uses_block: true"@]
    } else {
        seq![]
    }) + titled("  cfg:"@, block_item_lines(m.basic_blocks)) + source_lines(m, source) + seq![
        Seq::empty(),
    ]
}

/// The optional model of a borrowed class.
pub open spec fn opt_class(c: Option<&ClassInfo>) -> Option<ClassModel> {
    match c {
        Some(x) => Some(x@),
        None => None,
    }
}

/// The optional text of a borrowed string.
pub open spec fn opt_str(s: Option<&str>) -> Option<Seq<char>> {
    match s {
        Some(x) => Some(x@),
        None => None,
    }
}

/// Texts of strings, as character vectors.
fn chars_all(v: &Vec<String>) -> (r: Vec<Vec<char>>)
    ensures
        views(r@) == texts(v@),
{
    let mut r: Vec<Vec<char>> = Vec::new();
    let mut i: usize = 0;
    while i < v.len()
        invariant
            i <= v.len(),
            r.len() == i,
            forall|j: int| 0 <= j < i ==> (#[trigger] r@[j])@ == v@[j]@,
        decreases v.len() - i,
    {
        r.push(to_chars(v[i].as_str()));
        i += 1;
    }
    assert(views(r@) =~= texts(v@));
    r
}

/// The lines about the method's class.
fn class_lines_exec(c: Option<&ClassInfo>) -> (r: Vec<Vec<char>>)
    ensures
        views(r@) == class_lines(opt_class(c)),
{
    let mut r: Vec<Vec<char>> = Vec::new();
    match c {
        None => {
            assert(views(r@) =~= class_lines(opt_class(c)));
            r
        },
        Some(c) => {
            let ghost cm = c@;
            let mut l = to_chars("  class: ");
            append_str(&mut l, c.fqn.as_str());
            match &c.super_class {
                Some(s) => {
                    append_str(&mut l, " < ");
                    append_str(&mut l, s.as_str());
                },
                None => {},
            }
            let ghost first = match cm.super_class {
                Some(s) => "  class: "@ + cm.fqn + " < "@ + s,
                None => "  class: "@ + cm.fqn,
            };
            assert(l@ =~= first);
            r.push(l);
            let ghost mix: Seq<Seq<char>> = if cm.mixins.len() > 0 {
                seq!["  mixins: "@ + join(cm.mixins, ", "@)]
            } else {
                seq![]
            };
            if c.mixins.len() > 0 {
                let mut m = to_chars("  mixins: ");
                let parts = chars_all(&c.mixins);
                let j = join_chars(&parts, ", ");
                append(&mut m, &j);
                assert(m@ =~= "  mixins: "@ + join(cm.mixins, ", "@));
                r.push(m);
            }
            assert(views(r@) =~= seq![first] + mix);
            let ghost def: Seq<Seq<char>> = match cm.file_path {
                Some(p) => seq![
                    match cm.line {
                        Some(l) => "  defined: "@ + p + seq![':'] + dec(l as nat),
                        None => "  defined: "@ + p,
                    },
                ],
                None => seq![],
            };
            let ghost before = views(r@);
            match &c.file_path {
                Some(p) => {
                    let mut d = to_chars("  defined: ");
                    append_str(&mut d, p.as_str());
                    match c.line {
                        Some(line) => {
                            d.push(':');
                            let n = decimal(line);
                            append(&mut d, &n);
                            assert(d@ =~= "  defined: "@ + p@ + seq![':'] + dec(line as nat));
                        },
                        None => {},
                    }
                    r.push(d);
                },
                None => {},
            }
            assert(views(r@) =~= before + def);
            assert(class_lines(opt_class(Some(c))) == seq![first] + mix + def);
            r
        },
    }
}

/// The line giving where the method is defined.
fn location_lines_exec(m: &MethodInfo) -> (r: Vec<Vec<char>>)
    ensures
        views(r@) == location_lines(m@),
{
    let mut r: Vec<Vec<char>> = Vec::new();
    match &m.file_path {
        Some(p) => match m.line {
            Some(line) => {
                let mut l = to_chars("  source: ");
                append_str(&mut l, p.as_str());
                l.push(':');
                let n = decimal(line);
                append(&mut l, &n);
                assert(l@ =~= "  source: "@ + p@ + seq![':'] + dec(line as nat));
                r.push(l);
            },
            None => {},
        },
        None => {},
    }
    assert(views(r@) =~= location_lines(m@));
    r
}

/// The titled lines of the parameters.
fn arg_lines_exec(m: &MethodInfo) -> (r: Vec<Vec<char>>)
    ensures
        views(r@) == titled("  args:"@, arg_item_lines(m@.arguments)),
{
    let ghost am = arg_models(m.arguments@);
    let mut items: Vec<Vec<char>> = Vec::new();
    let mut i: usize = 0;
    while i < m.arguments.len()
        invariant
            i <= m.arguments.len(),
            am == arg_models(m.arguments@),
            views(items@) == arg_item_lines(am.take(i as int)),
        decreases m.arguments.len() - i,
    {
        assert(am.take(i + 1).drop_last() == am.take(i as int));
        let a = &m.arguments[i];
        let mut l = to_chars("    ");
        append_str(&mut l, a.name.as_str());
        append_str(&mut l, ": ");
        let t = render_type(&a.ty);
        append(&mut l, &t);
        if a.is_optional {
            append_str(&mut l, " (optional)");
        }
        assert(l@ == arg_line(am[i as int]));
        items.push(l);
        assert(views(items@) =~= arg_item_lines(am.take(i + 1)));
        i += 1;
    }
    assert(am.take(m.arguments.len() as int) == am);
    titled_exec("  args:", items)
}

/// A titled list: the title and the items, or nothing without items.
fn titled_exec(title: &str, items: Vec<Vec<char>>) -> (r: Vec<Vec<char>>)
    ensures
        views(r@) == titled(title@, views(items@)),
{
    let mut r: Vec<Vec<char>> = Vec::new();
    if items.len() > 0 {
        r.push(to_chars(title));
        let ghost iv = views(items@);
        push_all(&mut r, items);
        assert(views(r@) =~= seq![title@] + iv);
    } else {
        assert(views(r@) =~= titled(title@, views(items@)));
    }
    r
}

/// The titled lines of the instance variables.
fn ivar_lines_exec(m: &MethodInfo) -> (r: Vec<Vec<char>>)
    ensures
        views(r@) == titled("  ivars:"@, ivar_item_lines(m@.ivars)),
{
    let ghost xm = ivar_models(m.ivars@);
    let mut items: Vec<Vec<char>> = Vec::new();
    let mut i: usize = 0;
    while i < m.ivars.len()
        invariant
            i <= m.ivars.len(),
            xm == ivar_models(m.ivars@),
            views(items@) == ivar_item_lines(xm.take(i as int)),
        decreases m.ivars.len() - i,
    {
        assert(xm.take(i + 1).drop_last() == xm.take(i as int));
        let x = &m.ivars[i];
        let mut l = to_chars("    ");
        append_str(&mut l, x.name.as_str());
        append_str(&mut l, ": ");
        let t = render_type(&x.ty);
        append(&mut l, &t);
        assert(l@ == ivar_line(xm[i as int]));
        items.push(l);
        assert(views(items@) =~= ivar_item_lines(xm.take(i + 1)));
        i += 1;
    }
    assert(xm.take(m.ivars.len() as int) == xm);
    titled_exec("  ivars:", items)
}

/// The line of one call.
fn call_line_exec(c: &crate::model::MethodCall) -> (r: Vec<char>)
    ensures
        r@ == call_line(c@),
{
    let mut l = to_chars("    ");
    let rt = render_type(&c.receiver_type);
    append(&mut l, &rt);
    l.push('.');
    append_str(&mut l, c.method_name.as_str());
    append_str(&mut l, "() -> ");
    let t = render_type(&c.return_type);
    append(&mut l, &t);
    let ghost head = "    "@ + type_text(c.receiver_type@) + seq!['.'] + c.method_name@ + "() -> "@
        + type_text(c.return_type@);
    assert(l@ =~= head);
    if c.conditions.len() > 0 {
        let ghost cm = cond_models(c.conditions@);
        let mut parts: Vec<Vec<char>> = Vec::new();
        let mut i: usize = 0;
        while i < c.conditions.len()
            invariant
                i <= c.conditions.len(),
                cm == cond_models(c.conditions@),
                views(parts@) == cond_texts(cm.take(i as int)),
            decreases c.conditions.len() - i,
        {
            assert(cm.take(i + 1).drop_last() == cm.take(i as int));
            let cond = &c.conditions[i];
            let mut p = to_chars(cond.call.as_str());
            append_str(&mut p, " = ");
            if cond.is_true {
                append_str(&mut p, "true");
            } else {
                append_str(&mut p, "false");
            }
            assert(p@ == cond_text(cm[i as int]));
            parts.push(p);
            assert(views(parts@) =~= cond_texts(cm.take(i + 1)));
            i += 1;
        }
        assert(cm.take(c.conditions.len() as int) == cm);
        append_str(&mut l, "  when: ");
        let j = join_chars(&parts, ", ");
        append(&mut l, &j);
        assert(l@ =~= head + "  when: "@ + join(cond_texts(cm), ", "@));
    }
    l
}

/// The titled lines of the calls.
fn call_lines_exec(m: &MethodInfo) -> (r: Vec<Vec<char>>)
    ensures
        views(r@) == titled("  calls:"@, call_item_lines(m@.calls)),
{
    let ghost cm = call_models(m.calls@);
    let mut items: Vec<Vec<char>> = Vec::new();
    let mut i: usize = 0;
    while i < m.calls.len()
        invariant
            i <= m.calls.len(),
            cm == call_models(m.calls@),
            views(items@) == call_item_lines(cm.take(i as int)),
        decreases m.calls.len() - i,
    {
        assert(cm.take(i + 1).drop_last() == cm.take(i as int));
        let l = call_line_exec(&m.calls[i]);
        items.push(l);
        assert(views(items@) =~= call_item_lines(cm.take(i + 1)));
        i += 1;
    }
    assert(cm.take(m.calls.len() as int) == cm);
    titled_exec("  calls:", items)
}

/// The line of one basic block.
fn block_line_exec(b: &crate::model::BasicBlock) -> (r: Vec<char>)
    ensures
        r@ == block_line(b@),
{
    let mut l = to_chars("    bb");
    let id = decimal(b.id);
    append(&mut l, &id);
    match &b.terminator {
        Terminator::Goto(t) => {
            append_str(&mut l, " -> bb");
            let n = decimal(*t);
            append(&mut l, &n);
        },
        Terminator::Branch { condition, true_bb, false_bb } => {
            append_str(&mut l, " -[");
            append_str(&mut l, condition.as_str());
            append_str(&mut l, "]-> true:bb");
            let t = decimal(*true_bb);
            append(&mut l, &t);
            append_str(&mut l, " / false:bb");
            let f = decimal(*false_bb);
            append(&mut l, &f);
        },
        Terminator::BlockCall { true_bb, false_bb } => {
            append_str(&mut l, " -[block]-> true:bb");
            let t = decimal(*true_bb);
            append(&mut l, &t);
            append_str(&mut l, " / false:bb");
            let f = decimal(*false_bb);
            append(&mut l, &f);
        },
        Terminator::Return => {
            append_str(&mut l, " -> return");
        },
    }
    l
}

/// The titled lines of the basic blocks.
fn block_lines_exec(m: &MethodInfo) -> (r: Vec<Vec<char>>)
    ensures
        views(r@) == titled("  cfg:"@, block_item_lines(m@.basic_blocks)),
{
    let ghost bm = block_views(m.basic_blocks@);
    let mut items: Vec<Vec<char>> = Vec::new();
    let mut i: usize = 0;
    while i < m.basic_blocks.len()
        invariant
            i <= m.basic_blocks.len(),
            bm == block_views(m.basic_blocks@),
            views(items@) == block_item_lines(bm.take(i as int)),
        decreases m.basic_blocks.len() - i,
    {
        assert(bm.take(i + 1).drop_last() == bm.take(i as int));
        let l = block_line_exec(&m.basic_blocks[i]);
        items.push(l);
        assert(views(items@) =~= block_item_lines(bm.take(i + 1)));
        i += 1;
    }
    assert(bm.take(m.basic_blocks.len() as int) == bm);
    titled_exec("  cfg:", items)
}

/// The bytes `s` takes in UTF-8.
fn utf8_len_exec(s: &Vec<char>) -> (r: u128)
    ensures
        r == utf8_len(s@),
{
    let mut total: u128 = 0;
    let mut i: usize = 0;
    while i < s.len()
        invariant
            i <= s.len(),
            total == utf8_len(s@.take(i as int)),
            total <= 4 * i,
        decreases s.len() - i,
    {
        assert(s@.take(i + 1).drop_last() == s@.take(i as int));
        let c = s[i] as u32;
        let b: u128 = if c < 0x80 {
            1
        } else if c < 0x800 {
            2
        } else if c < 0x10000 {
            3
        } else {
            4
        };
        assert(b == char_bytes(s@[i as int]));
        assert(s@.take(i + 1).last() == s@[i as int]);
        assert(total + b <= 4 * (i + 1));
        total = total + b;
        i += 1;
    }
    assert(s@.take(s.len() as int) == s@);
    total
}

/// The bytes of a line's indentation.
fn indent_bytes_exec(s: &Vec<char>) -> (r: i128)
    ensures
        r == indent_bytes(s@),
{
    let t = trim_start_chars(s);
    let a = utf8_len_exec(s);
    let b = utf8_len_exec(&t);
    let n = s.len();
    let k = t.len();
    proof {
        lemma_utf8_len_bound(s@);
        lemma_utf8_len_bound(t@);
    }
    assert(a <= 4 * (n as int) && b <= 4 * (k as int));
    assert(a < 0x8000_0000_0000_0000_0000_0000_0000_0000u128);
    assert(b < 0x8000_0000_0000_0000_0000_0000_0000_0000u128);
    let ai = a as i128;
    let bi = b as i128;
    assert(ai == a && bi == b);
    ai - bi
}

/// A text of `n` characters takes at most `4 n` bytes.
proof fn lemma_utf8_len_bound(s: Seq<char>)
    ensures
        utf8_len(s) <= 4 * s.len(),
    decreases s.len(),
{
    if s.len() > 0 {
        lemma_utf8_len_bound(s.drop_last());
    }
}

/// The source lines of the method, when its source is given.
fn source_lines_exec(m: &MethodInfo, source: Option<&str>) -> (r: Vec<Vec<char>>)
    ensures
        views(r@) == source_lines(m@, opt_str(source)),
{
    let mut r: Vec<Vec<char>> = Vec::new();
    let s = match source {
        Some(s) => s,
        None => {
            assert(views(r@) =~= source_lines(m@, opt_str(source)));
            return r;
        },
    };
    if m.file_path.is_none() {
        assert(views(r@) =~= source_lines(m@, opt_str(source)));
        return r;
    }
    let start = match m.line {
        Some(l) => l,
        None => {
            assert(views(r@) =~= source_lines(m@, opt_str(source)));
            return r;
        },
    };
    let chars = to_chars(s);
    let ls = lines(&chars);
    let ghost lv = views(ls@);
    if !(start > 0 && start <= ls.len()) {
        assert(views(r@) =~= source_lines(m@, opt_str(source)));
        return r;
    }
    assert(lv[start - 1] == ls@[start - 1]@);
    let indent = indent_bytes_exec(&ls[start - 1]);
    r.push(to_chars("  source:"));
    let ghost head = views(r@);
    let mut i: usize = start - 1;
    loop
        invariant_except_break
            start - 1 <= i <= ls.len(),
            views(r@) + snippet_from(lv, i as int, indent as int) == head + snippet_from(
                lv,
                start - 1,
                indent as int,
            ),
        invariant
            lv == views(ls@),
            lv == spec_lines(s@),
            indent == indent_bytes(lv[start - 1]),
        ensures
            views(r@) == head + snippet_from(lv, start - 1, indent as int),
        decreases ls.len() - i,
    {
        if i >= ls.len() {
            assert(snippet_from(lv, i as int, indent as int) =~= Seq::<Seq<char>>::empty());
            assert(views(r@) =~= views(r@) + snippet_from(lv, i as int, indent as int));
            break;
        }
        assert(lv[i as int] == ls@[i as int]@);
        let mut l = to_chars("    ");
        append(&mut l, &ls[i]);
        assert(l@ == "    "@ + lv[i as int]);
        let ghost before = views(r@);
        r.push(l);
        assert(views(r@) =~= before.push("    "@ + lv[i as int]));
        let t = trim_start_chars(&ls[i]);
        let ends = crate::text::eq_str(&t, "end") && indent_bytes_exec(&ls[i]) == indent;
        if ends {
            proof {
                reveal_strlit("end");
            }
            assert(closes_at(lv[i as int], indent as int));
            assert(snippet_from(lv, i as int, indent as int) =~= seq!["    "@ + lv[i as int]]);
            assert(views(r@) =~= before + snippet_from(lv, i as int, indent as int));
            break;
        }
        assert(!closes_at(lv[i as int], indent as int));
        assert(snippet_from(lv, i as int, indent as int) =~= seq!["    "@ + lv[i as int]]
            + snippet_from(lv, i + 1, indent as int));
        assert(views(r@) + snippet_from(lv, i + 1, indent as int) =~= before + snippet_from(
            lv,
            i as int,
            indent as int,
        ));
        i += 1;
    }
    assert(views(r@) =~= source_lines(m@, opt_str(source)));
    r
}

/// The text that shows a method of `project`, as [`method_lines`] gives its
/// lines, with the method's class as the project knows it; `source` is the
/// content of the method's file, when it could be read.
pub fn method_text(m: &MethodInfo, project: &Project, source: Option<&str>) -> (r: String)
    ensures
        r@ == lines_text(
            method_lines(m@, lookup(project@.classes, m@.fqn.class_fqn), opt_str(source)),
        ),
{
    let class = project.classes.get(m.fqn.class_fqn.as_str());
    assert(opt_class(class) == lookup(project@.classes, m@.fqn.class_fqn));
    method_text_of(m, class, source)
}

/// The text that shows a method with the given class and source.
#[verifier::spinoff_prover]
#[verifier::rlimit(40)]
fn method_text_of(m: &MethodInfo, class: Option<&ClassInfo>, source: Option<&str>) -> (r: String)
    ensures
        r@ == lines_text(method_lines(m@, opt_class(class), opt_str(source))),
{
    let mut out: Vec<Vec<char>> = Vec::new();
    let mut h = to_chars("== ");
    let f = m.fqn.to_string();
    append_str(&mut h, f.as_str());
    append_str(&mut h, " ==");
    out.push(h);
    push_all(&mut out, class_lines_exec(class));
    push_all(&mut out, location_lines_exec(m));
    push_all(&mut out, arg_lines_exec(m));
    match &m.return_type {
        Some(t) => {
            let mut l = to_chars("  returns: ");
            let tt = render_type(t);
            append(&mut l, &tt);
            let ghost before = views(out@);
            out.push(l);
            assert(views(out@) =~= before + seq!["  returns: "@ + type_text(t@)]);
        },
        None => {},
    }
    push_all(&mut out, ivar_lines_exec(m));
    push_all(&mut out, call_lines_exec(m));
    if m.rescues.len() > 0 {
        let mut l = to_chars("  rescues: ");
        let parts = chars_all(&m.rescues);
        let j = join_chars(&parts, ", ");
        append(&mut l, &j);
        let ghost before = views(out@);
        out.push(l);
        assert(views(out@) =~= before + seq!["  rescues: "@ + join(texts(m.rescues@), ", "@)]);
    }
    if m.uses_block {
        let ghost before = views(out@);
        out.push(to_chars("  uses_block: true"));
        assert(views(out@) =~= before + seq!["  uses_block: true"@]);
    }
    push_all(&mut out, block_lines_exec(m));
    push_all(&mut out, source_lines_exec(m, source));
    let ghost before = views(out@);
    out.push(Vec::new());
    assert(views(out@) =~= before + seq![Seq::<char>::empty()]);
    assert(views(out@) =~= method_lines(m@, opt_class(class), opt_str(source)));
    join_lines(&out)
}


// ---------------------------------------------------------------------------
// The JSON form
// ---------------------------------------------------------------------------

/// A text between double quotes, as it is (nothing is escaped).
pub open spec fn quoted(s: Seq<char>) -> Seq<char> {
    seq!['"'] + s + seq!['"']
}

/// A quoted text, or `null`.
pub open spec fn quoted_or_null(o: Option<Seq<char>>) -> Seq<char> {
    match o {
        Some(s) => quoted(s),
        None => "null"@,
    }
}

/// `true` or `false`.
pub open spec fn bool_text(b: bool) -> Seq<char> {
    if b {
        "true"@
    } else {
        "false"@
    }
}

/// A parameter as JSON.
pub open spec fn arg_json(a: ArgModel) -> Seq<char> {
    "{\"name\":"@ + quoted(a.name) + ",\"type\":"@ + quoted(type_text(a.ty)) + ",\"optional\":"@
        + bool_text(a.is_optional) + "}"@
}

/// Parameters as JSON.
pub open spec fn arg_jsons(v: Seq<ArgModel>) -> Seq<Seq<char>>
    decreases v.len(),
{
    if v.len() == 0 {
        seq![]
    } else {
        arg_jsons(v.drop_last()).push(arg_json(v.last()))
    }
}

/// A branch condition as JSON.
pub open spec fn cond_json(c: CondModel) -> Seq<char> {
    "{\"call\":"@ + quoted(c.call) + ",\"is_true\":"@ + bool_text(c.is_true) + "}"@
}

/// Branch conditions as JSON.
pub open spec fn cond_jsons(v: Seq<CondModel>) -> Seq<Seq<char>>
    decreases v.len(),
{
    if v.len() == 0 {
        seq![]
    } else {
        cond_jsons(v.drop_last()).push(cond_json(v.last()))
    }
}

/// A call as JSON.
pub open spec fn call_json(c: CallModel) -> Seq<char> {
    "{\"receiver\":"@ + quoted(type_text(c.receiver_type)) + ",\"method\":"@ + quoted(
        c.method_name,
    ) + ",\"return_type\":"@ + quoted(type_text(c.return_type)) + ",\"bb\":"@ + dec(
        c.bb_id as nat,
    ) + ",\"conditions\":["@ + join(cond_jsons(c.conditions), ","@) + "]}"@
}

/// Calls as JSON.
pub open spec fn call_jsons(v: Seq<CallModel>) -> Seq<Seq<char>>
    decreases v.len(),
{
    if v.len() == 0 {
        seq![]
    } else {
        call_jsons(v.drop_last()).push(call_json(v.last()))
    }
}

/// An instance variable as JSON.
pub open spec fn ivar_json(x: IvarModel) -> Seq<char> {
    "{\"name\":"@ + quoted(x.name) + ",\"type\":"@ + quoted(type_text(x.ty)) + "}"@
}

/// Instance variables as JSON.
pub open spec fn ivar_jsons(v: Seq<IvarModel>) -> Seq<Seq<char>>
    decreases v.len(),
{
    if v.len() == 0 {
        seq![]
    } else {
        ivar_jsons(v.drop_last()).push(ivar_json(v.last()))
    }
}

/// A basic block as JSON.
pub open spec fn block_json(b: BlockView) -> Seq<char> {
    "{\"id\":"@ + dec(b.id as nat) + match b.terminator {
        TermView::Goto(t) => ",\"type\":\"goto\",\"target\":"@ + dec(t as nat) + "}"@,
        TermView::Branch { condition, true_bb, false_bb } => ",\"type\":\"branch\",\"condition\":"@
            + quoted(condition) + ",\"true_bb\":"@ + dec(true_bb as nat) + ",\"false_bb\":"@
            + dec(false_bb as nat) + "}"@,
        TermView::BlockCall { true_bb, false_bb } => ",\"type\":\"block_call\",\"true_bb\":"@
            + dec(true_bb as nat) + ",\"false_bb\":"@ + dec(false_bb as nat) + "}"@,
        TermView::Return => ",\"type\":\"return\"}"@,
    }
}

/// Basic blocks as JSON.
pub open spec fn block_jsons(v: Seq<BlockView>) -> Seq<Seq<char>>
    decreases v.len(),
{
    if v.len() == 0 {
        seq![]
    } else {
        block_jsons(v.drop_last()).push(block_json(v.last()))
    }
}

/// The superclass of a class, if the class is known.
pub open spec fn super_of(c: Option<ClassModel>) -> Option<Seq<char>> {
    match c {
        Some(c) => c.super_class,
        None => None,
    }
}

/// The file of a class, if the class is known.
pub open spec fn file_of(c: Option<ClassModel>) -> Option<Seq<char>> {
    match c {
        Some(c) => c.file_path,
        None => None,
    }
}

/// A method as one JSON object; `rescues` is the text given for the list
/// of rescued exception classes.
pub open spec fn method_json_text(m: InfoModel, c: Option<ClassModel>, rescues: Seq<char>) -> Seq<
    char,
> {
    "{\"method\":"@ + quoted(fqn_text(m.fqn)) + ",\"class\":"@ + quoted(m.fqn.class_fqn)
        + ",\"super_class\":"@ + quoted_or_null(super_of(c)) + ",\"file\":"@ + quoted_or_null(
        file_of(c),
    ) + ",\"args\":["@ + join(arg_jsons(m.arguments), ","@) + "],\"returns\":"@
        + quoted_or_null(
        match m.return_type {
            Some(t) => Some(type_text(t)),
            None => None,
        },
    ) + ",\"calls\":["@ + join(call_jsons(m.calls), ","@) + "],\"ivars\":["@ + join(
        ivar_jsons(m.ivars),
        ","@,
    ) + "],\"rescues\":"@ + rescues + ",\"uses_block\":"@ + bool_text(m.uses_block)
        + ",\"basic_blocks\":["@ + join(block_jsons(m.basic_blocks), ","@) + "]}"@
}

/// The text `format!("{:?}", v)` gives for a list of strings.
pub uninterp spec fn debug_list(v: Seq<Seq<char>>) -> Seq<char>;

/// `format!("{:?}", v)` on a vector of strings: the `Debug` form, in which
/// each string is quoted with its special characters escaped. The result is
/// named, not stated.
#[verifier::external_body]
fn debug_strings(v: &Vec<String>) -> (r: String)
    ensures
        r@ == debug_list(texts(v@)),
{
    format!("{:?}", v)
}

/// Appends `"s"`.
fn push_quoted(out: &mut Vec<char>, s: &Vec<char>)
    ensures
        final(out)@ == old(out)@ + quoted(s@),
{
    out.push('"');
    append(out, s);
    out.push('"');
    assert(out@ =~= old(out)@ + quoted(s@));
}

/// Appends `"s"` or `null`.
fn push_quoted_or_null(out: &mut Vec<char>, s: Option<&String>)
    ensures
        final(out)@ == old(out)@ + quoted_or_null(opt_text_ref(s)),
{
    match s {
        Some(x) => push_quoted(out, &to_chars(x.as_str())),
        None => append_str(out, "null"),
    }
}

/// The optional text of a borrowed string.
pub open spec fn opt_text_ref(s: Option<&String>) -> Option<Seq<char>> {
    match s {
        Some(x) => Some(x@),
        None => None,
    }
}

/// Appends `true` or `false`.
fn push_bool(out: &mut Vec<char>, b: bool)
    ensures
        final(out)@ == old(out)@ + bool_text(b),
{
    if b {
        append_str(out, "true");
    } else {
        append_str(out, "false");
    }
}

/// The parameters as JSON.
fn arg_jsons_exec(m: &MethodInfo) -> (r: Vec<Vec<char>>)
    ensures
        views(r@) == arg_jsons(m@.arguments),
{
    let ghost am = arg_models(m.arguments@);
    let mut items: Vec<Vec<char>> = Vec::new();
    let mut i: usize = 0;
    while i < m.arguments.len()
        invariant
            i <= m.arguments.len(),
            am == arg_models(m.arguments@),
            views(items@) == arg_jsons(am.take(i as int)),
        decreases m.arguments.len() - i,
    {
        assert(am.take(i + 1).drop_last() == am.take(i as int));
        let a = &m.arguments[i];
        let mut l = to_chars("{\"name\":");
        push_quoted(&mut l, &to_chars(a.name.as_str()));
        append_str(&mut l, ",\"type\":");
        push_quoted(&mut l, &render_type(&a.ty));
        append_str(&mut l, ",\"optional\":");
        push_bool(&mut l, a.is_optional);
        append_str(&mut l, "}");
        assert(l@ =~= arg_json(am[i as int]));
        items.push(l);
        assert(views(items@) =~= arg_jsons(am.take(i + 1)));
        i += 1;
    }
    assert(am.take(m.arguments.len() as int) == am);
    items
}

/// One call as JSON.
fn call_json_exec(c: &crate::model::MethodCall) -> (r: Vec<char>)
    ensures
        r@ == call_json(c@),
{
    let ghost cm = cond_models(c.conditions@);
    let mut parts: Vec<Vec<char>> = Vec::new();
    let mut i: usize = 0;
    while i < c.conditions.len()
        invariant
            i <= c.conditions.len(),
            cm == cond_models(c.conditions@),
            views(parts@) == cond_jsons(cm.take(i as int)),
        decreases c.conditions.len() - i,
    {
        assert(cm.take(i + 1).drop_last() == cm.take(i as int));
        let cond = &c.conditions[i];
        let mut p = to_chars("{\"call\":");
        push_quoted(&mut p, &to_chars(cond.call.as_str()));
        append_str(&mut p, ",\"is_true\":");
        push_bool(&mut p, cond.is_true);
        append_str(&mut p, "}");
        assert(p@ =~= cond_json(cm[i as int]));
        parts.push(p);
        assert(views(parts@) =~= cond_jsons(cm.take(i + 1)));
        i += 1;
    }
    assert(cm.take(c.conditions.len() as int) == cm);
    let mut l = to_chars("{\"receiver\":");
    push_quoted(&mut l, &render_type(&c.receiver_type));
    append_str(&mut l, ",\"method\":");
    push_quoted(&mut l, &to_chars(c.method_name.as_str()));
    append_str(&mut l, ",\"return_type\":");
    push_quoted(&mut l, &render_type(&c.return_type));
    append_str(&mut l, ",\"bb\":");
    append(&mut l, &decimal(c.bb_id));
    append_str(&mut l, ",\"conditions\":[");
    append(&mut l, &join_chars(&parts, ","));
    append_str(&mut l, "]}");
    assert(l@ =~= call_json(c@));
    l
}

/// The calls as JSON.
fn call_jsons_exec(m: &MethodInfo) -> (r: Vec<Vec<char>>)
    ensures
        views(r@) == call_jsons(m@.calls),
{
    let ghost cm = call_models(m.calls@);
    let mut items: Vec<Vec<char>> = Vec::new();
    let mut i: usize = 0;
    while i < m.calls.len()
        invariant
            i <= m.calls.len(),
            cm == call_models(m.calls@),
            views(items@) == call_jsons(cm.take(i as int)),
        decreases m.calls.len() - i,
    {
        assert(cm.take(i + 1).drop_last() == cm.take(i as int));
        items.push(call_json_exec(&m.calls[i]));
        assert(views(items@) =~= call_jsons(cm.take(i + 1)));
        i += 1;
    }
    assert(cm.take(m.calls.len() as int) == cm);
    items
}

/// The instance variables as JSON.
fn ivar_jsons_exec(m: &MethodInfo) -> (r: Vec<Vec<char>>)
    ensures
        views(r@) == ivar_jsons(m@.ivars),
{
    let ghost xm = ivar_models(m.ivars@);
    let mut items: Vec<Vec<char>> = Vec::new();
    let mut i: usize = 0;
    while i < m.ivars.len()
        invariant
            i <= m.ivars.len(),
            xm == ivar_models(m.ivars@),
            views(items@) == ivar_jsons(xm.take(i as int)),
        decreases m.ivars.len() - i,
    {
        assert(xm.take(i + 1).drop_last() == xm.take(i as int));
        let x = &m.ivars[i];
        let mut l = to_chars("{\"name\":");
        push_quoted(&mut l, &to_chars(x.name.as_str()));
        append_str(&mut l, ",\"type\":");
        push_quoted(&mut l, &render_type(&x.ty));
        append_str(&mut l, "}");
        assert(l@ =~= ivar_json(xm[i as int]));
        items.push(l);
        assert(views(items@) =~= ivar_jsons(xm.take(i + 1)));
        i += 1;
    }
    assert(xm.take(m.ivars.len() as int) == xm);
    items
}

/// One basic block as JSON.
fn block_json_exec(b: &crate::model::BasicBlock) -> (r: Vec<char>)
    ensures
        r@ == block_json(b@),
{
    let mut l = to_chars("{\"id\":");
    append(&mut l, &decimal(b.id));
    match &b.terminator {
        Terminator::Goto(t) => {
            append_str(&mut l, ",\"type\":\"goto\",\"target\":");
            append(&mut l, &decimal(*t));
            append_str(&mut l, "}");
        },
        Terminator::Branch { condition, true_bb, false_bb } => {
            append_str(&mut l, ",\"type\":\"branch\",\"condition\":");
            push_quoted(&mut l, &to_chars(condition.as_str()));
            append_str(&mut l, ",\"true_bb\":");
            append(&mut l, &decimal(*true_bb));
            append_str(&mut l, ",\"false_bb\":");
            append(&mut l, &decimal(*false_bb));
            append_str(&mut l, "}");
        },
        Terminator::BlockCall { true_bb, false_bb } => {
            append_str(&mut l, ",\"type\":\"block_call\",\"true_bb\":");
            append(&mut l, &decimal(*true_bb));
            append_str(&mut l, ",\"false_bb\":");
            append(&mut l, &decimal(*false_bb));
            append_str(&mut l, "}");
        },
        Terminator::Return => {
            append_str(&mut l, ",\"type\":\"return\"}");
        },
    }
    assert(l@ =~= block_json(b@));
    l
}

/// The basic blocks as JSON.
fn block_jsons_exec(m: &MethodInfo) -> (r: Vec<Vec<char>>)
    ensures
        views(r@) == block_jsons(m@.basic_blocks),
{
    let ghost bm = block_views(m.basic_blocks@);
    let mut items: Vec<Vec<char>> = Vec::new();
    let mut i: usize = 0;
    while i < m.basic_blocks.len()
        invariant
            i <= m.basic_blocks.len(),
            bm == block_views(m.basic_blocks@),
            views(items@) == block_jsons(bm.take(i as int)),
        decreases m.basic_blocks.len() - i,
    {
        assert(bm.take(i + 1).drop_last() == bm.take(i as int));
        items.push(block_json_exec(&m.basic_blocks[i]));
        assert(views(items@) =~= block_jsons(bm.take(i + 1)));
        i += 1;
    }
    assert(bm.take(m.basic_blocks.len() as int) == bm);
    items
}

/// A method of `project` as one JSON object, with the method's class as
/// the project knows it and `rescues` as the text of its list of rescued
/// exception classes, as [`method_json_text`] says. Texts are written
/// between quotes as they are.
pub fn method_json_with(m: &MethodInfo, project: &Project, rescues: &str) -> (r: String)
    ensures
        r@ == method_json_text(m@, lookup(project@.classes, m@.fqn.class_fqn), rescues@),
{
    let class = project.classes.get(m.fqn.class_fqn.as_str());
    assert(opt_class(class) == lookup(project@.classes, m@.fqn.class_fqn));
    let mut out = to_chars("{\"method\":");
    push_quoted(&mut out, &to_chars(m.fqn.to_string().as_str()));
    append_str(&mut out, ",\"class\":");
    push_quoted(&mut out, &to_chars(m.fqn.class_fqn.as_str()));
    append_str(&mut out, ",\"super_class\":");
    let (sup, file) = match class {
        Some(c) => (c.super_class.as_ref(), c.file_path.as_ref()),
        None => (None, None),
    };
    assert(opt_text_ref(sup) == super_of(opt_class(class)));
    assert(opt_text_ref(file) == file_of(opt_class(class)));
    push_quoted_or_null(&mut out, sup);
    append_str(&mut out, ",\"file\":");
    push_quoted_or_null(&mut out, file);
    append_str(&mut out, ",\"args\":[");
    append(&mut out, &join_chars(&arg_jsons_exec(m), ","));
    append_str(&mut out, "],\"returns\":");
    match &m.return_type {
        Some(t) => push_quoted(&mut out, &render_type(t)),
        None => append_str(&mut out, "null"),
    }
    append_str(&mut out, ",\"calls\":[");
    append(&mut out, &join_chars(&call_jsons_exec(m), ","));
    append_str(&mut out, "],\"ivars\":[");
    append(&mut out, &join_chars(&ivar_jsons_exec(m), ","));
    append_str(&mut out, "],\"rescues\":");
    append_str(&mut out, rescues);
    append_str(&mut out, ",\"uses_block\":");
    push_bool(&mut out, m.uses_block);
    append_str(&mut out, ",\"basic_blocks\":[");
    append(&mut out, &join_chars(&block_jsons_exec(m), ","));
    append_str(&mut out, "]}");
    assert(out@ =~= method_json_text(m@, opt_class(class), rescues@));
    string_from_chars(&out)
}

/// A method of `project` as one JSON object, its rescued exception classes
/// written in their `Debug` form.
pub fn method_json(m: &MethodInfo, project: &Project) -> (r: String)
    ensures
        r@ == method_json_text(
            m@,
            lookup(project@.classes, m@.fqn.class_fqn),
            debug_list(m@.rescues),
        ),
{
    let rescues = debug_strings(&m.rescues);
    method_json_with(m, project, rescues.as_str())
}


/// Each line indented by four spaces.
pub open spec fn four_spaced(ls: Seq<Seq<char>>) -> Seq<Seq<char>> {
    ls.map_values(|l: Seq<char>| "    "@ + l)
}

/// The snippet from line `i` runs through line `k` when line `k` is the
/// first from `i` on that is `end` at indentation `indent`.
proof fn lemma_snippet_until(ls: Seq<Seq<char>>, i: int, k: int, indent: int)
    requires
        0 <= i <= k < ls.len(),
        trim_start(ls[k]) == "end"@ && indent_bytes(ls[k]) == indent,
        forall|j: int|
            i <= j < k ==> !(trim_start(#[trigger] ls[j]) == "end"@ && indent_bytes(ls[j]) == indent),
    ensures
        snippet_from(ls, i, indent) == four_spaced(ls.subrange(i, k + 1)),
    decreases k - i,
{
    if i < k {
        lemma_snippet_until(ls, i + 1, k, indent);
        assert(!closes_at(ls[i], indent));
        assert(four_spaced(ls.subrange(i, k + 1)) =~= seq!["    "@ + ls[i]] + four_spaced(
            ls.subrange(i + 1, k + 1),
        ));
    } else {
        assert(closes_at(ls[k], indent));
        assert(four_spaced(ls.subrange(i, k + 1)) =~= seq!["    "@ + ls[k]]);
    }
}

/// The snippet from line `i` runs to the last line when no line from `i`
/// on is `end` at indentation `indent`.
proof fn lemma_snippet_to_end(ls: Seq<Seq<char>>, i: int, indent: int)
    requires
        0 <= i <= ls.len(),
        forall|j: int|
            i <= j < ls.len() ==> !(trim_start(#[trigger] ls[j]) == "end"@ && indent_bytes(ls[j])
                == indent),
    ensures
        snippet_from(ls, i, indent) == four_spaced(ls.subrange(i, ls.len() as int)),
    decreases ls.len() - i,
{
    if i < ls.len() {
        lemma_snippet_to_end(ls, i + 1, indent);
        assert(!closes_at(ls[i], indent));
        assert(four_spaced(ls.subrange(i, ls.len() as int)) =~= seq!["    "@ + ls[i]] + four_spaced(
            ls.subrange(i + 1, ls.len() as int),
        ));
    } else {
        assert(four_spaced(ls.subrange(i, ls.len() as int)) =~= Seq::<Seq<char>>::empty());
    }
}

/// The source of a method defined at line `start` (from 1) of `s` shows,
/// after its title, every line from the definition line through line `k`
/// (from 0), each indented by four spaces, when line `k` is the first from
/// the definition line on that is `end` at the definition line's
/// indentation: an `end` at any other indentation does not close it.
pub proof fn lemma_source_until_end(m: InfoModel, s: Seq<char>, k: int)
    requires
        m.file_path is Some,
        m.line is Some,
        1 <= m.line->0 <= spec_lines(s).len(),
        m.line->0 - 1 <= k < spec_lines(s).len(),
        trim_start(spec_lines(s)[k]) == "end"@,
        indent_bytes(spec_lines(s)[k]) == indent_bytes(spec_lines(s)[m.line->0 - 1]),
        forall|j: int|
            m.line->0 - 1 <= j < k ==> !(trim_start(#[trigger] spec_lines(s)[j]) == "end"@
                && indent_bytes(spec_lines(s)[j]) == indent_bytes(spec_lines(s)[m.line->0 - 1])),
    ensures
        source_lines(m, Some(s)) == seq!["  source:"@] + four_spaced(
            spec_lines(s).subrange(m.line->0 - 1, k + 1),
        ),
{
    let ls = spec_lines(s);
    let d = m.line->0 - 1;
    lemma_snippet_until(ls, d, k, indent_bytes(ls[d]));
}

/// The source of a method defined at line `start` (from 1) of `s` runs to
/// the last line when no line from the definition line on is `end` at the
/// definition line's indentation.
pub proof fn lemma_source_without_end(m: InfoModel, s: Seq<char>)
    requires
        m.file_path is Some,
        m.line is Some,
        1 <= m.line->0 <= spec_lines(s).len(),
        forall|j: int|
            m.line->0 - 1 <= j < spec_lines(s).len() ==> !(trim_start(#[trigger] spec_lines(s)[j])
                == "end"@ && indent_bytes(spec_lines(s)[j]) == indent_bytes(
                spec_lines(s)[m.line->0 - 1],
            )),
    ensures
        source_lines(m, Some(s)) == seq!["  source:"@] + four_spaced(
            spec_lines(s).subrange(m.line->0 - 1, spec_lines(s).len() as int),
        ),
{
    let ls = spec_lines(s);
    let d = m.line->0 - 1;
    lemma_snippet_to_end(ls, d, indent_bytes(ls[d]));
}

} // verus!

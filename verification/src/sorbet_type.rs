//! Sorbet type expressions: reading them from Sorbet's notation and writing
//! them back.
use vstd::prelude::*;

use crate::text::{
    eq_str, find_str, occurs_at, has_prefix, has_suffix, lemma_find_occurs, lemma_trim_len, spec_find, spec_strip_prefix, spec_strip_suffix, starts_with_str, ends_with_str,
    string_from_chars, strip_prefix_str, strip_suffix_str, slice_chars, skip, take, to_chars,
    trim, trim_chars, views, append, append_str, join, join_chars, chars_eq,
};

verus! {

broadcast use {vstd::seq_lib::group_seq_properties, vstd::string::group_string_axioms};

/// A Sorbet type as written in Sorbet's outputs.
#[derive(Debug, PartialEq, Eq)]
pub enum SorbetType {
    Simple(String),
    Nilable(Box<SorbetType>),
    Union(Vec<SorbetType>),
    Array(Box<SorbetType>),
    Hash(Box<SorbetType>, Box<SorbetType>),
    ClassOf(String),
    Tuple(Vec<SorbetType>),
    Shape(Vec<(String, SorbetType)>),
    Literal(String),
    Boolean,
    Untyped,
    NoReturn,
    Void,
}

/// Mathematical model of a [`SorbetType`]: the same tree over character
/// sequences.
pub enum TypeModel {
    Simple(Seq<char>),
    Nilable(Box<TypeModel>),
    Union(Seq<TypeModel>),
    Array(Box<TypeModel>),
    Hash(Box<TypeModel>, Box<TypeModel>),
    ClassOf(Seq<char>),
    Tuple(Seq<TypeModel>),
    Shape(Seq<(Seq<char>, TypeModel)>),
    Literal(Seq<char>),
    Boolean,
    Untyped,
    NoReturn,
    Void,
}

/// The model of a type.
pub open spec fn type_model(t: SorbetType) -> TypeModel
    decreases t,
{
    match t {
        SorbetType::Simple(s) => TypeModel::Simple(s@),
        SorbetType::Nilable(b) => TypeModel::Nilable(Box::new(type_model(*b))),
        SorbetType::Union(v) => TypeModel::Union(
            Seq::new(
                v@.len(),
                |i: int|
                    if 0 <= i < v@.len() {
                        type_model(v@[i])
                    } else {
                        TypeModel::Untyped
                    },
            ),
        ),
        SorbetType::Array(b) => TypeModel::Array(Box::new(type_model(*b))),
        SorbetType::Hash(k, v) => TypeModel::Hash(
            Box::new(type_model(*k)),
            Box::new(type_model(*v)),
        ),
        SorbetType::ClassOf(s) => TypeModel::ClassOf(s@),
        SorbetType::Tuple(v) => TypeModel::Tuple(
            Seq::new(
                v@.len(),
                |i: int|
                    if 0 <= i < v@.len() {
                        type_model(v@[i])
                    } else {
                        TypeModel::Untyped
                    },
            ),
        ),
        SorbetType::Shape(v) => TypeModel::Shape(
            Seq::new(
                v@.len(),
                |i: int|
                    if 0 <= i < v@.len() {
                        (v@[i].0@, type_model(v@[i].1))
                    } else {
                        (Seq::empty(), TypeModel::Untyped)
                    },
            ),
        ),
        SorbetType::Literal(s) => TypeModel::Literal(s@),
        SorbetType::Boolean => TypeModel::Boolean,
        SorbetType::Untyped => TypeModel::Untyped,
        SorbetType::NoReturn => TypeModel::NoReturn,
        SorbetType::Void => TypeModel::Void,
    }
}

impl View for SorbetType {
    type V = TypeModel;

    open spec fn view(&self) -> TypeModel {
        type_model(*self)
    }
}

// ---------------------------------------------------------------------------
// Reading types
// ---------------------------------------------------------------------------

/// Opening bracket for nesting purposes.
pub open spec fn is_open(c: char) -> bool {
    c == '(' || c == '[' || c == '<' || c == '{'
}

/// Closing bracket for nesting purposes.
pub open spec fn is_close(c: char) -> bool {
    c == ')' || c == ']' || c == '>' || c == '}'
}

/// Comma-separated pieces of `s` from index `i` on, where `start` is where the
/// current piece began and `depth` the bracket nesting at `i`.
pub open spec fn split_args_from(s: Seq<char>, i: int, start: int, depth: int) -> Seq<Seq<char>>
    decreases s.len() - i,
{
    if i >= s.len() || i < 0 {
        seq![trim(s.subrange(start, s.len() as int))]
    } else if is_open(s[i]) {
        split_args_from(s, i + 1, start, depth + 1)
    } else if is_close(s[i]) {
        split_args_from(s, i + 1, start, depth - 1)
    } else if s[i] == ',' && depth == 0 {
        seq![trim(s.subrange(start, i))] + split_args_from(s, i + 1, i + 1, depth)
    } else {
        split_args_from(s, i + 1, start, depth)
    }
}

/// The top-level comma-separated pieces of `s`, each trimmed: commas inside
/// brackets do not split.
pub open spec fn split_args(s: Seq<char>) -> Seq<Seq<char>> {
    split_args_from(s, 0, 0, 0)
}

proof fn lemma_split_args_from_len(s: Seq<char>, i: int, start: int, depth: int)
    requires
        0 <= start <= i <= s.len(),
    ensures
        forall|k: int|
            0 <= k < split_args_from(s, i, start, depth).len() ==> (#[trigger] split_args_from(
                s,
                i,
                start,
                depth,
            )[k]).len() <= s.len() - start,
        split_args_from(s, i, start, depth).len() >= 1,
    decreases s.len() - i,
{
    if i >= s.len() {
        lemma_trim_len(s.subrange(start, s.len() as int));
    } else if is_open(s[i]) {
        lemma_split_args_from_len(s, i + 1, start, depth + 1);
    } else if is_close(s[i]) {
        lemma_split_args_from_len(s, i + 1, start, depth - 1);
    } else if s[i] == ',' && depth == 0 {
        lemma_trim_len(s.subrange(start, i));
        lemma_split_args_from_len(s, i + 1, i + 1, depth);
        let r = split_args_from(s, i, start, depth);
        let rest = split_args_from(s, i + 1, i + 1, depth);
        assert forall|k: int| 0 <= k < r.len() implies (#[trigger] r[k]).len() <= s.len() - start by {
            if k > 0 {
                assert(r[k] == rest[k - 1]);
            }
        }
    } else {
        lemma_split_args_from_len(s, i + 1, start, depth);
    }
}

/// Every piece of [`split_args`] is at most as long as the text split.
pub proof fn lemma_split_args_len(s: Seq<char>)
    ensures
        forall|k: int|
            0 <= k < split_args(s).len() ==> (#[trigger] split_args(s)[k]).len() <= s.len(),
        split_args(s).len() >= 1,
{
    lemma_split_args_from_len(s, 0, 0, 0);
}

/// The text between `pre` and `suf`, when `s` starts with `pre` and what
/// follows ends with `suf`.
pub open spec fn between(s: Seq<char>, pre: Seq<char>, suf: Seq<char>) -> Option<Seq<char>> {
    match spec_strip_prefix(s, pre) {
        Some(r) => spec_strip_suffix(r, suf),
        None => None,
    }
}

/// A literal type such as `Integer(2)`, `Symbol(:name)` or `String("x")`.
pub open spec fn is_literal_type(t: Seq<char>) -> bool {
    (has_prefix(t, "Integer("@) || has_prefix(t, "Symbol("@) || has_prefix(t, "String("@))
        && has_suffix(t, ")"@)
}

/// A shape field `key: Type` read from one piece, if the piece has `": "`.
pub open spec fn shape_field(part: Seq<char>, bound: nat) -> Option<(Seq<char>, TypeModel)>
    decreases bound, 0nat,
{
    match spec_find(part, ": "@) {
        Some(c) => if 0 <= c && c + 2 <= part.len() && part.len() < bound {
            Some((part.take(c), spec_parse_type(part.skip(c + 2))))
        } else {
            None
        },
        None => None,
    }
}

/// The shape field read from each piece (`None` for pieces without `": "`).
pub open spec fn shape_fields_of(parts: Seq<Seq<char>>, bound: nat) -> Seq<
    Option<(Seq<char>, TypeModel)>,
>
    decreases bound, 1nat,
{
    Seq::new(
        parts.len(),
        |i: int|
            if 0 <= i < parts.len() {
                shape_field(parts[i], bound)
            } else {
                None
            },
    )
}

/// The `Some` entries of `v`, in order.
pub open spec fn somes<A>(v: Seq<Option<A>>) -> Seq<A>
    decreases v.len(),
{
    if v.len() == 0 {
        seq![]
    } else {
        match v.last() {
            Some(a) => somes(v.drop_last()).push(a),
            None => somes(v.drop_last()),
        }
    }
}

/// The type that `s` denotes in Sorbet's notation.
pub open spec fn spec_parse_type(s: Seq<char>) -> TypeModel
    decreases s.len(), 2nat,
{
    let t = trim(s);
    proof {
        lemma_trim_len(s);
        reveal_strlit("T.nilable(");
        reveal_strlit("T.any(");
        reveal_strlit("T::Array[");
        reveal_strlit("T::Hash[");
        reveal_strlit("T.class_of(");
        reveal_strlit(")");
        reveal_strlit("]");
    }
    if t.len() == 0 || t == "T.untyped"@ {
        TypeModel::Untyped
    } else if t == "T.noreturn"@ {
        TypeModel::NoReturn
    } else if t == "T::Boolean"@ {
        TypeModel::Boolean
    } else if t == "void"@ {
        TypeModel::Void
    } else if between(t, "T.nilable("@, ")"@) is Some {
        TypeModel::Nilable(Box::new(spec_parse_type(between(t, "T.nilable("@, ")"@)->0)))
    } else if between(t, "T.any("@, ")"@) is Some {
        let parts = split_args(between(t, "T.any("@, ")"@)->0);
        proof {
            lemma_split_args_len(between(t, "T.any("@, ")"@)->0);
        }
        TypeModel::Union(
            Seq::new(
                parts.len(),
                |i: int|
                    if 0 <= i < parts.len() && parts[i].len() < s.len() {
                        spec_parse_type(parts[i])
                    } else {
                        TypeModel::Untyped
                    },
            ),
        )
    } else if between(t, "T::Array["@, "]"@) is Some {
        TypeModel::Array(Box::new(spec_parse_type(between(t, "T::Array["@, "]"@)->0)))
    } else if between(t, "T::Hash["@, "]"@) is Some && split_args(
        between(t, "T::Hash["@, "]"@)->0,
    ).len() == 2 {
        let parts = split_args(between(t, "T::Hash["@, "]"@)->0);
        proof {
            lemma_split_args_len(between(t, "T::Hash["@, "]"@)->0);
        }
        TypeModel::Hash(
            Box::new(spec_parse_type(parts[0])),
            Box::new(spec_parse_type(parts[1])),
        )
    } else if between(t, "T.class_of("@, ")"@) is Some {
        TypeModel::ClassOf(between(t, "T.class_of("@, ")"@)->0)
    } else if has_prefix(t, seq!['[']) && has_suffix(t, seq![']']) {
        let parts = split_args(t.subrange(1, t.len() - 1));
        proof {
            lemma_split_args_len(t.subrange(1, t.len() - 1));
        }
        TypeModel::Tuple(
            Seq::new(
                parts.len(),
                |i: int|
                    if 0 <= i < parts.len() && parts[i].len() < s.len() {
                        spec_parse_type(parts[i])
                    } else {
                        TypeModel::Untyped
                    },
            ),
        )
    } else if has_prefix(t, seq!['{']) && has_suffix(t, seq!['}']) {
        TypeModel::Shape(somes(shape_fields_of(split_args(t.subrange(1, t.len() - 1)), s.len())))
    } else if is_literal_type(t) {
        TypeModel::Literal(t)
    } else {
        TypeModel::Simple(t)
    }
}


// ---------------------------------------------------------------------------
// Executable reading
// ---------------------------------------------------------------------------

/// The top-level comma-separated pieces of `s`, each trimmed.
pub fn split_type_args(s: &Vec<char>) -> (r: Vec<Vec<char>>)
    ensures
        views(r@) == split_args(s@),
{
    let mut out: Vec<Vec<char>> = Vec::new();
    let mut opens: usize = 0;
    let mut closes: usize = 0;
    let mut start: usize = 0;
    let mut i: usize = 0;
    while i < s.len()
        invariant
            start <= i <= s.len(),
            opens + closes <= i,
            views(out@) + split_args_from(s@, i as int, start as int, opens - closes) == split_args(
                s@,
            ),
        decreases s.len() - i,
    {
        let c = s[i];
        if c == '(' || c == '[' || c == '<' || c == '{' {
            opens += 1;
        } else if c == ')' || c == ']' || c == '>' || c == '}' {
            closes += 1;
        } else if c == ',' && opens == closes {
            let piece = slice_chars(s, start, i);
            let t = trim_chars(&piece);
            let ghost prev = out@;
            out.push(t);
            assert(views(out@) =~= views(prev) + seq![t@]);
            assert(views(out@) + split_args_from(s@, i + 1, i + 1, opens - closes) =~= views(prev)
                + split_args_from(s@, i as int, start as int, opens - closes));
            start = i + 1;
        }
        i += 1;
    }
    let piece = slice_chars(s, start, s.len());
    let t = trim_chars(&piece);
    let ghost prev = out@;
    out.push(t);
    assert(views(out@) =~= views(prev) + seq![t@]);
    assert(views(out@) =~= views(prev) + split_args_from(s@, i as int, start as int, opens - closes));
    out
}

/// The text of `s` between `pre` and `suf`.
fn between_str(s: &Vec<char>, pre: &str, suf: &str) -> (r: Option<Vec<char>>)
    ensures
        r is Some == between(s@, pre@, suf@) is Some,
        r matches Some(x) ==> between(s@, pre@, suf@) == Some(x@),
{
    match strip_prefix_str(s, pre) {
        Some(rest) => strip_suffix_str(&rest, suf),
        None => None,
    }
}

/// `is_literal_type`.
fn is_literal(t: &Vec<char>) -> (r: bool)
    ensures
        r == is_literal_type(t@),
{
    (starts_with_str(t, "Integer(") || starts_with_str(t, "Symbol(") || starts_with_str(
        t,
        "String(",
    )) && ends_with_str(t, ")")
}

/// Models of the fields of a shape.
pub open spec fn shape_models(v: Seq<(String, SorbetType)>) -> Seq<(Seq<char>, TypeModel)> {
    Seq::new(v.len(), |i: int| (v[i].0@, type_model(v[i].1)))
}

/// Reads a Sorbet type from its notation.
pub fn parse_type_chars(s: &Vec<char>) -> (r: SorbetType)
    ensures
        r@ == spec_parse_type(s@),
    decreases s@.len(),
{
    let t = trim_chars(s);
    proof {
        lemma_trim_len(s@);
        reveal_strlit("T.nilable(");
        reveal_strlit("T.any(");
        reveal_strlit("T::Array[");
        reveal_strlit("T::Hash[");
        reveal_strlit("T.class_of(");
        reveal_strlit(")");
        reveal_strlit("]");
        reveal_strlit("[");
        reveal_strlit("{");
        reveal_strlit("}");
        assert("["@ =~= seq!['[']);
        assert("]"@ =~= seq![']']);
        assert("{"@ =~= seq!['{']);
        assert("}"@ =~= seq!['}']);
    }
    if t.len() == 0 || eq_str(&t, "T.untyped") {
        return SorbetType::Untyped;
    }
    if eq_str(&t, "T.noreturn") {
        return SorbetType::NoReturn;
    }
    if eq_str(&t, "T::Boolean") {
        return SorbetType::Boolean;
    }
    if eq_str(&t, "void") {
        return SorbetType::Void;
    }
    if let Some(inner) = between_str(&t, "T.nilable(", ")") {
        let x = parse_type_chars(&inner);
        return SorbetType::Nilable(Box::new(x));
    }
    if let Some(inner) = between_str(&t, "T.any(", ")") {
        let parts = split_type_args(&inner);
        proof {
            lemma_split_args_len(inner@);
            assert forall|k: int| 0 <= k < parts@.len() implies (#[trigger] parts@[k])@.len() < s@.len() by {
                assert(views(parts@)[k] == parts@[k]@);
            }
        }
        let v = parse_types(&parts, Ghost(s@.len()));
        let r = SorbetType::Union(v);
        assert(r@ == spec_parse_type(s@)) by {
            assert(type_model(r)->Union_0 =~= spec_parse_type(s@)->Union_0);
        }
        return r;
    }
    if let Some(inner) = between_str(&t, "T::Array[", "]") {
        let x = parse_type_chars(&inner);
        return SorbetType::Array(Box::new(x));
    }
    if let Some(inner) = between_str(&t, "T::Hash[", "]") {
        let parts = split_type_args(&inner);
        if parts.len() == 2 {
            proof {
                lemma_split_args_len(inner@);
                assert(views(parts@)[0] == parts@[0]@);
                assert(views(parts@)[1] == parts@[1]@);
            }
            let k = parse_type_chars(&parts[0]);
            let v = parse_type_chars(&parts[1]);
            return SorbetType::Hash(Box::new(k), Box::new(v));
        }
    }
    if let Some(inner) = between_str(&t, "T.class_of(", ")") {
        return SorbetType::ClassOf(string_from_chars(&inner));
    }
    if starts_with_str(&t, "[") && ends_with_str(&t, "]") {
        assert(t@.len() >= 2) by {
            if t@.len() == 1 {
                assert(t@.subrange(0, 1)[0] == '[');
                assert(t@.subrange(0, 1)[0] == ']');
            }
        }
        let inner = slice_chars(&t, 1, t.len() - 1);
        let parts = split_type_args(&inner);
        proof {
            lemma_split_args_len(inner@);
            assert forall|k: int| 0 <= k < parts@.len() implies (#[trigger] parts@[k])@.len() < s@.len() by {
                assert(views(parts@)[k] == parts@[k]@);
            }
        }
        let v = parse_types(&parts, Ghost(s@.len()));
        let r = SorbetType::Tuple(v);
        assert(r@ == spec_parse_type(s@)) by {
            assert(type_model(r)->Tuple_0 =~= spec_parse_type(s@)->Tuple_0);
        }
        return r;
    }
    if starts_with_str(&t, "{") && ends_with_str(&t, "}") {
        assert(t@.len() >= 2) by {
            if t@.len() == 1 {
                assert(t@.subrange(0, 1)[0] == '{');
                assert(t@.subrange(0, 1)[0] == '}');
            }
        }
        let inner = slice_chars(&t, 1, t.len() - 1);
        let parts = split_type_args(&inner);
        proof {
            lemma_split_args_len(inner@);
            assert forall|k: int| 0 <= k < parts@.len() implies (#[trigger] parts@[k])@.len() < s@.len() by {
                assert(views(parts@)[k] == parts@[k]@);
            }
        }
        let v = parse_shape_fields(&parts, Ghost(s@.len()));
        let r = SorbetType::Shape(v);
        assert(r@ == spec_parse_type(s@)) by {
            assert(type_model(r)->Shape_0 =~= shape_models(v@));
        }
        return r;
    }
    if is_literal(&t) {
        return SorbetType::Literal(string_from_chars(&t));
    }
    SorbetType::Simple(string_from_chars(&t))
}

/// Reads each piece as a type.
fn parse_types(parts: &Vec<Vec<char>>, bound: Ghost<nat>) -> (r: Vec<SorbetType>)
    requires
        forall|k: int| 0 <= k < parts@.len() ==> (#[trigger] parts@[k])@.len() < bound@,
    ensures
        r@.len() == parts@.len(),
        forall|k: int|
            0 <= k < parts@.len() ==> type_model(#[trigger] r@[k]) == spec_parse_type(parts@[k]@),
    decreases bound@, 0nat,
{
    let mut out: Vec<SorbetType> = Vec::new();
    let mut i: usize = 0;
    while i < parts.len()
        invariant
            i <= parts@.len(),
            out@.len() == i,
            forall|k: int| 0 <= k < parts@.len() ==> (#[trigger] parts@[k])@.len() < bound@,
            forall|k: int|
                0 <= k < i ==> type_model(#[trigger] out@[k]) == spec_parse_type(parts@[k]@),
        decreases parts.len() - i,
    {
        assert(parts@[i as int]@.len() < bound@);
        let x = parse_type_chars(&parts[i]);
        out.push(x);
        i += 1;
    }
    out
}

/// Reads the `key: Type` pieces of a shape, skipping pieces without `": "`.
fn parse_shape_fields(parts: &Vec<Vec<char>>, bound: Ghost<nat>) -> (r: Vec<(String, SorbetType)>)
    requires
        forall|k: int| 0 <= k < parts@.len() ==> (#[trigger] parts@[k])@.len() < bound@,
    ensures
        shape_models(r@) == somes(shape_fields_of(views(parts@), bound@)),
    decreases bound@, 0nat,
{
    let ghost opts = shape_fields_of(views(parts@), bound@);
    let mut out: Vec<(String, SorbetType)> = Vec::new();
    let mut i: usize = 0;
    assert(opts.take(0) =~= seq![]);
    while i < parts.len()
        invariant
            i <= parts@.len(),
            opts.len() == parts@.len(),
            forall|k: int|
                0 <= k < parts@.len() ==> #[trigger] opts[k] == shape_field(parts@[k]@, bound@),
            shape_models(out@) == somes(opts.take(i as int)),
            forall|k: int| 0 <= k < parts@.len() ==> (#[trigger] parts@[k])@.len() < bound@,
        decreases parts.len() - i,
    {
        let part = &parts[i];
        assert(opts.take(i + 1).drop_last() =~= opts.take(i as int));
        assert(opts.take(i + 1).last() == opts[i as int]);
        proof {
            reveal_strlit(": ");
            assert(": "@ =~= seq![':', ' ']);
        }
        match find_str(part, ": ") {
            Some(c) => {
                proof {
                    lemma_find_occurs(part@, ": "@);
                    assert(occurs_at(part@, ": "@, c as int));
                    assert(c + 2 <= part@.len());
                }
                let key = take(part, c);
                assert(c + 2 <= part.len());
                let rest = skip(part, c + 2);
                let v = parse_type_chars(&rest);
                let ghost prev = out@;
                out.push((string_from_chars(&key), v));
                assert(shape_models(out@) =~= shape_models(prev).push((key@, type_model(v))));
            },
            None => {},
        }
        i += 1;
    }
    assert(opts.take(parts@.len() as int) =~= opts);
    out
}

/// Reads a Sorbet type from its notation.
pub fn parse_sorbet_type(s: &str) -> (r: SorbetType)
    ensures
        r@ == spec_parse_type(s@),
{
    let v = to_chars(s);
    parse_type_chars(&v)
}


// ---------------------------------------------------------------------------
// Writing types
// ---------------------------------------------------------------------------

/// Sorbet's notation for each type of a list.
pub open spec fn texts(v: Seq<TypeModel>) -> Seq<Seq<char>>
    decreases v, 0nat,
{
    Seq::new(
        v.len(),
        |i: int|
            if 0 <= i < v.len() {
                type_text(v[i])
            } else {
                Seq::empty()
            },
    )
}

/// Sorbet's notation for each field of a shape, as `key: Type`.
pub open spec fn field_texts(f: Seq<(Seq<char>, TypeModel)>) -> Seq<Seq<char>>
    decreases f, 0nat,
{
    Seq::new(
        f.len(),
        |i: int|
            if 0 <= i < f.len() {
                f[i].0 + ": "@ + type_text(f[i].1)
            } else {
                Seq::empty()
            },
    )
}

/// Sorbet's notation for a type.
pub open spec fn type_text(m: TypeModel) -> Seq<char>
    decreases m, 1nat,
{
    match m {
        TypeModel::Simple(s) => s,
        TypeModel::Nilable(b) => "T.nilable("@ + type_text(*b) + ")"@,
        TypeModel::Union(v) => "T.any("@ + join(texts(v), ", "@) + ")"@,
        TypeModel::Array(b) => "T::Array["@ + type_text(*b) + "]"@,
        TypeModel::Hash(k, v) => "T::Hash["@ + type_text(*k) + ", "@ + type_text(*v) + "]"@,
        TypeModel::ClassOf(n) => "T.class_of("@ + n + ")"@,
        TypeModel::Tuple(v) => "["@ + join(texts(v), ", "@) + "]"@,
        TypeModel::Shape(f) => "{"@ + join(field_texts(f), ", "@) + "}"@,
        TypeModel::Literal(s) => s,
        TypeModel::Boolean => "T::Boolean"@,
        TypeModel::Untyped => "T.untyped"@,
        TypeModel::NoReturn => "T.noreturn"@,
        TypeModel::Void => "void"@,
    }
}

/// Writes each type in Sorbet's notation.
fn render_types(v: &Vec<SorbetType>) -> (r: Vec<Vec<char>>)
    ensures
        r@.len() == v@.len(),
        forall|i: int| 0 <= i < v@.len() ==> (#[trigger] r@[i])@ == type_text(type_model(v@[i])),
    decreases v@, 0nat,
{
    let mut out: Vec<Vec<char>> = Vec::new();
    let mut i: usize = 0;
    while i < v.len()
        invariant
            i <= v.len(),
            out@.len() == i,
            forall|k: int| 0 <= k < i ==> (#[trigger] out@[k])@ == type_text(type_model(v@[k])),
        decreases v.len() - i,
    {
        let x = render_type(&v[i]);
        out.push(x);
        i += 1;
    }
    out
}

/// Writes each shape field as `key: Type`.
fn render_fields(f: &Vec<(String, SorbetType)>) -> (r: Vec<Vec<char>>)
    ensures
        r@.len() == f@.len(),
        forall|k: int|
            0 <= k < f@.len() ==> (#[trigger] r@[k])@ == f@[k].0@ + ": "@ + type_text(
                type_model(f@[k].1),
            ),
    decreases f@, 0nat,
{
    let mut items: Vec<Vec<char>> = Vec::new();
    let mut i: usize = 0;
    while i < f.len()
        invariant
            i <= f.len(),
            items@.len() == i,
            forall|k: int|
                0 <= k < i ==> (#[trigger] items@[k])@ == f@[k].0@ + ": "@ + type_text(
                    type_model(f@[k].1),
                ),
        decreases f.len() - i,
    {
        let mut e = to_chars(f[i].0.as_str());
        append_str(&mut e, ": ");
        let y = render_type(&f[i].1);
        append(&mut e, &y);
        items.push(e);
        i += 1;
    }
    items
}

/// Writes a type in Sorbet's notation.
pub fn render_type(t: &SorbetType) -> (r: Vec<char>)
    ensures
        r@ == type_text(t@),
    decreases t, 1nat,
{
    match t {
        SorbetType::Simple(s) => {
            let r = to_chars(s.as_str());
            assert(type_text(t@) == s@);
            r
        },
        SorbetType::Nilable(b) => {
            let mut out = to_chars("T.nilable(");
            let x = render_type(b);
            append(&mut out, &x);
            append_str(&mut out, ")");
            assert(out@ == type_text(t@));
            out
        },
        SorbetType::Union(v) => {
            let items = render_types(v);
            let mut out = to_chars("T.any(");
            let x = join_chars(&items, ", ");
            append(&mut out, &x);
            append_str(&mut out, ")");
            proof {
                assert(views(items@) =~= texts(type_model(*t)->Union_0));
            }
            assert(out@ == type_text(t@));
            out
        },
        SorbetType::Array(b) => {
            let mut out = to_chars("T::Array[");
            let x = render_type(b);
            append(&mut out, &x);
            append_str(&mut out, "]");
            assert(out@ == type_text(t@));
            out
        },
        SorbetType::Hash(k, v) => {
            let mut out = to_chars("T::Hash[");
            let x = render_type(k);
            append(&mut out, &x);
            append_str(&mut out, ", ");
            let y = render_type(v);
            append(&mut out, &y);
            append_str(&mut out, "]");
            assert(out@ == type_text(t@));
            out
        },
        SorbetType::ClassOf(n) => {
            let mut out = to_chars("T.class_of(");
            let x = to_chars(n.as_str());
            append(&mut out, &x);
            append_str(&mut out, ")");
            assert(out@ == type_text(t@));
            out
        },
        SorbetType::Tuple(v) => {
            let items = render_types(v);
            let mut out = to_chars("[");
            let x = join_chars(&items, ", ");
            append(&mut out, &x);
            append_str(&mut out, "]");
            proof {
                assert(views(items@) =~= texts(type_model(*t)->Tuple_0));
            }
            assert(out@ == type_text(t@));
            out
        },
        SorbetType::Shape(f) => {
            let items = render_fields(f);
            let mut out = to_chars("{");
            let x = join_chars(&items, ", ");
            append(&mut out, &x);
            append_str(&mut out, "}");
            proof {
                assert(views(items@) =~= field_texts(type_model(*t)->Shape_0));
            }
            assert(out@ == type_text(t@));
            out
        },
        SorbetType::Literal(s) => to_chars(s.as_str()),
        SorbetType::Boolean => to_chars("T::Boolean"),
        SorbetType::Untyped => to_chars("T.untyped"),
        SorbetType::NoReturn => to_chars("T.noreturn"),
        SorbetType::Void => to_chars("void"),
    }
}

impl SorbetType {
    /// Sorbet's notation for this type.
    pub fn to_string(&self) -> (r: String)
        ensures
            r@ == type_text(self@),
    {
        let v = render_type(self);
        string_from_chars(&v)
    }
}

/// Structural equality of types.
pub fn type_eq(a: &SorbetType, b: &SorbetType) -> (r: bool)
    ensures
        r == (a@ == b@),
    decreases a, 1nat,
{
    match (a, b) {
        (SorbetType::Simple(x), SorbetType::Simple(y)) => string_eq(x, y),
        (SorbetType::Nilable(x), SorbetType::Nilable(y)) => type_eq(x, y),
        (SorbetType::Union(x), SorbetType::Union(y)) => {
            let r = types_eq(x, y);
            proof {
                if !r {
                    let ma = type_model(*a)->Union_0;
                    let mb = type_model(*b)->Union_0;
                    if x@.len() == y@.len() {
                        let k = choose|k: int|
                            0 <= k < x@.len() && type_model(#[trigger] x@[k]) != type_model(y@[k]);
                        assert(ma[k] != mb[k]);
                    } else {
                        assert(ma.len() != mb.len());
                    }
                }
                if r {
                    assert(type_model(*a)->Union_0 =~= type_model(*b)->Union_0);
                }
            }
            r
        },
        (SorbetType::Array(x), SorbetType::Array(y)) => type_eq(x, y),
        (SorbetType::Hash(k1, v1), SorbetType::Hash(k2, v2)) => type_eq(k1, k2) && type_eq(v1, v2),
        (SorbetType::ClassOf(x), SorbetType::ClassOf(y)) => string_eq(x, y),
        (SorbetType::Tuple(x), SorbetType::Tuple(y)) => {
            let r = types_eq(x, y);
            proof {
                if !r {
                    let ma = type_model(*a)->Tuple_0;
                    let mb = type_model(*b)->Tuple_0;
                    if x@.len() == y@.len() {
                        let k = choose|k: int|
                            0 <= k < x@.len() && type_model(#[trigger] x@[k]) != type_model(y@[k]);
                        assert(ma[k] != mb[k]);
                    } else {
                        assert(ma.len() != mb.len());
                    }
                }
                if r {
                    assert(type_model(*a)->Tuple_0 =~= type_model(*b)->Tuple_0);
                }
            }
            r
        },
        (SorbetType::Shape(x), SorbetType::Shape(y)) => {
            let r = fields_eq(x, y);
            proof {
                let ma = type_model(*a)->Shape_0;
                let mb = type_model(*b)->Shape_0;
                if !r {
                    if x@.len() == y@.len() {
                        let k = choose|k: int|
                            0 <= k < x@.len() && !((#[trigger] x@[k]).0@ == y@[k].0@ && type_model(
                                x@[k].1,
                            ) == type_model(y@[k].1));
                        assert(ma[k] != mb[k]);
                    } else {
                        assert(ma.len() != mb.len());
                    }
                } else {
                    assert(ma =~= mb);
                }
            }
            r
        },
        (SorbetType::Literal(x), SorbetType::Literal(y)) => string_eq(x, y),
        (SorbetType::Boolean, SorbetType::Boolean) => true,
        (SorbetType::Untyped, SorbetType::Untyped) => true,
        (SorbetType::NoReturn, SorbetType::NoReturn) => true,
        (SorbetType::Void, SorbetType::Void) => true,
        _ => false,
    }
}

/// Element-wise equality of shape fields.
fn fields_eq(x: &Vec<(String, SorbetType)>, y: &Vec<(String, SorbetType)>) -> (r: bool)
    ensures
        r == (x@.len() == y@.len() && forall|k: int|
            0 <= k < x@.len() ==> (#[trigger] x@[k]).0@ == y@[k].0@ && type_model(x@[k].1)
                == type_model(y@[k].1)),
    decreases x@, 0nat,
{
    if x.len() != y.len() {
        return false;
    }
    let mut i: usize = 0;
    while i < x.len()
        invariant
            x.len() == y.len(),
            i <= x.len(),
            forall|k: int|
                0 <= k < i ==> (#[trigger] x@[k]).0@ == y@[k].0@ && type_model(x@[k].1)
                    == type_model(y@[k].1),
        decreases x.len() - i,
    {
        if !string_eq(&x[i].0, &y[i].0) || !type_eq(&x[i].1, &y[i].1) {
            return false;
        }
        i += 1;
    }
    true
}

/// Element-wise structural equality of type lists.
fn types_eq(x: &Vec<SorbetType>, y: &Vec<SorbetType>) -> (r: bool)
    ensures
        r == (x@.len() == y@.len() && forall|k: int|
            0 <= k < x@.len() ==> type_model(#[trigger] x@[k]) == type_model(y@[k])),
    decreases x@, 0nat,
{
    if x.len() != y.len() {
        return false;
    }
    let mut i: usize = 0;
    while i < x.len()
        invariant
            x.len() == y.len(),
            i <= x.len(),
            forall|k: int| 0 <= k < i ==> type_model(#[trigger] x@[k]) == type_model(y@[k]),
        decreases x.len() - i,
    {
        if !type_eq(&x[i], &y[i]) {
            return false;
        }
        i += 1;
    }
    true
}

/// Equality of strings.
pub fn string_eq(a: &String, b: &String) -> (r: bool)
    ensures
        r == (a@ == b@),
{
    let x = to_chars(a.as_str());
    let y = to_chars(b.as_str());
    chars_eq(&x, &y)
}

/// A copy of a string.
pub fn copy_string(s: &String) -> (r: String)
    ensures
        r@ == s@,
{
    s.clone()
}

/// A copy of a type.
pub fn copy_type(t: &SorbetType) -> (r: SorbetType)
    ensures
        r@ == t@,
    decreases t, 1nat,
{
    match t {
        SorbetType::Simple(s) => SorbetType::Simple(copy_string(s)),
        SorbetType::Nilable(b) => SorbetType::Nilable(Box::new(copy_type(b))),
        SorbetType::Union(v) => {
            let c = copy_types(v);
            let r = SorbetType::Union(c);
            assert(type_model(r)->Union_0 =~= type_model(*t)->Union_0);
            r
        },
        SorbetType::Array(b) => SorbetType::Array(Box::new(copy_type(b))),
        SorbetType::Hash(k, v) => SorbetType::Hash(Box::new(copy_type(k)), Box::new(copy_type(v))),
        SorbetType::ClassOf(s) => SorbetType::ClassOf(copy_string(s)),
        SorbetType::Tuple(v) => {
            let c = copy_types(v);
            let r = SorbetType::Tuple(c);
            assert(type_model(r)->Tuple_0 =~= type_model(*t)->Tuple_0);
            r
        },
        SorbetType::Shape(f) => {
            let out = copy_fields(f);
            let r = SorbetType::Shape(out);
            assert(type_model(r)->Shape_0 =~= type_model(*t)->Shape_0);
            r
        },
        SorbetType::Literal(s) => SorbetType::Literal(copy_string(s)),
        SorbetType::Boolean => SorbetType::Boolean,
        SorbetType::Untyped => SorbetType::Untyped,
        SorbetType::NoReturn => SorbetType::NoReturn,
        SorbetType::Void => SorbetType::Void,
    }
}

/// Copies of shape fields.
fn copy_fields(f: &Vec<(String, SorbetType)>) -> (r: Vec<(String, SorbetType)>)
    ensures
        r@.len() == f@.len(),
        forall|k: int|
            0 <= k < f@.len() ==> (#[trigger] r@[k]).0@ == f@[k].0@ && type_model(r@[k].1)
                == type_model(f@[k].1),
    decreases f@, 0nat,
{
    let mut out: Vec<(String, SorbetType)> = Vec::new();
    let mut i: usize = 0;
    while i < f.len()
        invariant
            i <= f.len(),
            out@.len() == i,
            forall|k: int|
                0 <= k < i ==> (#[trigger] out@[k]).0@ == f@[k].0@ && type_model(out@[k].1)
                    == type_model(f@[k].1),
        decreases f.len() - i,
    {
        let e = (copy_string(&f[i].0), copy_type(&f[i].1));
        out.push(e);
        i += 1;
    }
    out
}

/// Copies of each type.
fn copy_types(v: &Vec<SorbetType>) -> (r: Vec<SorbetType>)
    ensures
        r@.len() == v@.len(),
        forall|k: int| 0 <= k < v@.len() ==> type_model(#[trigger] r@[k]) == type_model(v@[k]),
    decreases v@, 0nat,
{
    let mut out: Vec<SorbetType> = Vec::new();
    let mut i: usize = 0;
    while i < v.len()
        invariant
            i <= v.len(),
            out@.len() == i,
            forall|k: int| 0 <= k < i ==> type_model(#[trigger] out@[k]) == type_model(v@[k]),
        decreases v.len() - i,
    {
        out.push(copy_type(&v[i]));
        i += 1;
    }
    out
}


/// What `between` gives is shorter than the text.
proof fn lemma_between_len(t: Seq<char>, pre: Seq<char>, suf: Seq<char>)
    requires
        pre.len() > 0,
        between(t, pre, suf) is Some,
    ensures
        between(t, pre, suf)->0.len() < t.len(),
{
}

/// A type is read the same with or without the whitespace around it.
pub proof fn lemma_parse_type_trim(s: Seq<char>)
    ensures
        spec_parse_type(trim(s)) == spec_parse_type(s),
{
    let t = trim(s);
    crate::text::lemma_trim_idem(s);
    lemma_trim_len(s);
    lemma_trim_len(t);
    reveal_strlit("T.any(");
    reveal_strlit(")");
    assert(trim(t) == t);
    let a = spec_parse_type(t);
    let b = spec_parse_type(s);
    if between(t, "T.any("@, ")"@) is Some {
        lemma_between_len(t, "T.any("@, ")"@);
        lemma_split_args_len(between(t, "T.any("@, ")"@)->0);
    }
    if t.len() >= 2 {
        lemma_split_args_len(t.subrange(1, t.len() - 1));
    }
    match a {
        TypeModel::Union(x) => {
            let y = b->Union_0;
            assert(x =~= y);
        },
        TypeModel::Tuple(x) => {
            let y = b->Tuple_0;
            assert(x =~= y);
        },
        TypeModel::Shape(x) => {
            let parts = split_args(t.subrange(1, t.len() - 1));
            assert(shape_fields_of(parts, t.len()) =~= shape_fields_of(parts, s.len()));
        },
        _ => {},
    }
}


// ---------------------------------------------------------------------------
// Reading back what was written
// ---------------------------------------------------------------------------

/// Scanning `s` from bracket depth `d`: the depth at the end, or `None`
/// when a closing bracket has nothing to close or a comma stands at depth 0.
pub open spec fn scan_end(s: Seq<char>, d: int) -> Option<int>
    decreases s.len(),
{
    if s.len() == 0 {
        Some(d)
    } else if is_open(s[0]) {
        scan_end(s.drop_first(), d + 1)
    } else if is_close(s[0]) {
        if d > 0 {
            scan_end(s.drop_first(), d - 1)
        } else {
            None
        }
    } else if s[0] == ',' && d == 0 {
        None
    } else {
        scan_end(s.drop_first(), d)
    }
}

/// Scanning `s` from bracket depth `d`, commas allowed anywhere: the depth
/// at the end, or `None` when a closing bracket has nothing to close.
pub open spec fn nest_end(s: Seq<char>, d: int) -> Option<int>
    decreases s.len(),
{
    if s.len() == 0 {
        Some(d)
    } else if is_open(s[0]) {
        nest_end(s.drop_first(), d + 1)
    } else if is_close(s[0]) {
        if d > 0 {
            nest_end(s.drop_first(), d - 1)
        } else {
            None
        }
    } else {
        nest_end(s.drop_first(), d)
    }
}

/// Every bracket of `s` is closed within it, in order.
pub open spec fn balanced(s: Seq<char>) -> bool {
    nest_end(s, 0) == Some(0int)
}

/// `s` is balanced and has no comma outside its brackets: it stays one
/// piece when a list is split at commas.
pub open spec fn one_piece(s: Seq<char>) -> bool {
    scan_end(s, 0) == Some(0int)
}

/// Scanning a text in two parts.
proof fn lemma_scan_append(a: Seq<char>, b: Seq<char>, d: int)
    ensures
        scan_end(a + b, d) == match scan_end(a, d) {
            Some(e) => scan_end(b, e),
            None => None,
        },
    decreases a.len(),
{
    if a.len() == 0 {
        assert(a + b =~= b);
    } else {
        assert((a + b)[0] == a[0]);
        assert((a + b).drop_first() =~= a.drop_first() + b);
        if is_open(a[0]) {
            lemma_scan_append(a.drop_first(), b, d + 1);
        } else if is_close(a[0]) {
            if d > 0 {
                lemma_scan_append(a.drop_first(), b, d - 1);
            }
        } else if a[0] == ',' && d == 0 {
        } else {
            lemma_scan_append(a.drop_first(), b, d);
        }
    }
}

/// Nesting a text in two parts.
proof fn lemma_nest_append(a: Seq<char>, b: Seq<char>, d: int)
    ensures
        nest_end(a + b, d) == match nest_end(a, d) {
            Some(e) => nest_end(b, e),
            None => None,
        },
    decreases a.len(),
{
    if a.len() == 0 {
        assert(a + b =~= b);
    } else {
        assert((a + b)[0] == a[0]);
        assert((a + b).drop_first() =~= a.drop_first() + b);
        if is_open(a[0]) {
            lemma_nest_append(a.drop_first(), b, d + 1);
        } else if is_close(a[0]) {
            if d > 0 {
                lemma_nest_append(a.drop_first(), b, d - 1);
            }
        } else {
            lemma_nest_append(a.drop_first(), b, d);
        }
    }
}

/// Inside a bracket, a balanced text has no comma at depth 0.
proof fn lemma_nest_inside(s: Seq<char>, d: int)
    requires
        d >= 0,
        nest_end(s, d) is Some,
    ensures
        scan_end(s, d + 1) == match nest_end(s, d) {
            Some(e) => Some(e + 1),
            None => None,
        },
    decreases s.len(),
{
    if s.len() > 0 {
        if is_open(s[0]) {
            lemma_nest_inside(s.drop_first(), d + 1);
        } else if is_close(s[0]) {
            lemma_nest_inside(s.drop_first(), d - 1);
        } else {
            lemma_nest_inside(s.drop_first(), d);
        }
    }
}

/// A text in one piece is balanced.
proof fn lemma_piece_nests(s: Seq<char>, d: int)
    requires
        scan_end(s, d) is Some,
    ensures
        nest_end(s, d) == scan_end(s, d),
    decreases s.len(),
{
    if s.len() > 0 {
        if is_open(s[0]) {
            lemma_piece_nests(s.drop_first(), d + 1);
        } else if is_close(s[0]) {
            lemma_piece_nests(s.drop_first(), d - 1);
        } else {
            lemma_piece_nests(s.drop_first(), d);
        }
    }
}

/// Splitting at commas passes over a piece without splitting it.
proof fn lemma_split_over(s: Seq<char>, i: int, start: int, p: Seq<char>, d: int)
    requires
        0 <= start <= i,
        i + p.len() <= s.len(),
        s.subrange(i, i + p.len()) == p,
        d >= 0,
        scan_end(p, d) is Some,
    ensures
        split_args_from(s, i, start, d) == split_args_from(s, i + p.len(), start, scan_end(p, d)->0),
    decreases p.len(),
{
    if p.len() > 0 {
        assert(s[i] == p[0]) by {
            assert(s.subrange(i, i + p.len())[0] == s[i]);
        }
        assert(s.subrange(i + 1, i + 1 + p.drop_first().len()) =~= p.drop_first());
        if is_open(p[0]) {
            lemma_split_over(s, i + 1, start, p.drop_first(), d + 1);
        } else if is_close(p[0]) {
            lemma_split_over(s, i + 1, start, p.drop_first(), d - 1);
        } else {
            lemma_split_over(s, i + 1, start, p.drop_first(), d);
        }
    }
}


/// `s` is not empty and neither starts nor ends with whitespace.
pub open spec fn solid(s: Seq<char>) -> bool {
    s.len() > 0 && !crate::text::is_ws(s[0]) && !crate::text::is_ws(s.last())
}

/// Trimming a text that starts with whitespace and then is solid gives
/// the solid part.
proof fn lemma_trim_ws_then(w: Seq<char>, p: Seq<char>)
    requires
        forall|k: int| 0 <= k < w.len() ==> crate::text::is_ws(#[trigger] w[k]),
        solid(p),
    ensures
        trim(w + p) == p,
    decreases w.len(),
{
    if w.len() == 0 {
        assert(w + p =~= p);
        assert(crate::text::trim_start(p) == p);
        assert(crate::text::trim_end(p) == p);
    } else {
        assert((w + p)[0] == w[0]);
        assert((w + p).drop_first() =~= w.drop_first() + p);
        lemma_trim_ws_then(w.drop_first(), p);
        assert(crate::text::trim_start(w + p) == crate::text::trim_start(w.drop_first() + p));
    }
}

/// A list of texts joined by `sep` is the first, `sep`, and the rest
/// joined.
proof fn lemma_join_first(parts: Seq<Seq<char>>, sep: Seq<char>)
    requires
        parts.len() >= 2,
    ensures
        join(parts, sep) == parts[0] + sep + join(parts.skip(1), sep),
    decreases parts.len(),
{
    if parts.len() == 2 {
        assert(parts.drop_last().len() == 1);
        assert(join(parts.drop_last(), sep) == parts.drop_last()[0]);
        assert(parts.skip(1) =~= seq![parts[1]]);
        assert(join(parts.skip(1), sep) == parts.skip(1)[0]);
    } else {
        let d = parts.drop_last();
        lemma_join_first(d, sep);
        assert(d[0] == parts[0]);
        assert(d.skip(1) =~= parts.skip(1).drop_last());
        assert(parts.skip(1).last() == parts.last());
        assert(join(parts, sep) =~= parts[0] + sep + join(parts.skip(1), sep));
    }
}

/// Splitting a list of solid pieces joined by `", "` gives the pieces back.
#[verifier::spinoff_prover]
#[verifier::rlimit(40)]
proof fn lemma_split_join_from(s: Seq<char>, i: int, start: int, parts: Seq<Seq<char>>)
    requires
        0 <= start <= i <= s.len(),
        forall|k: int| start <= k < i ==> crate::text::is_ws(#[trigger] s[k]),
        s.subrange(i, s.len() as int) == join(parts, ", "@),
        parts.len() >= 1,
        forall|j: int| 0 <= j < parts.len() ==> one_piece(#[trigger] parts[j]) && solid(parts[j]),
    ensures
        split_args_from(s, i, start, 0) == parts,
    decreases parts.len(),
{
    reveal_strlit(", ");
    let p0 = parts[0];
    assert(one_piece(p0) && solid(p0));
    let w = s.subrange(start, i);
    assert forall|k: int| 0 <= k < w.len() implies crate::text::is_ws(#[trigger] w[k]) by {
        assert(w[k] == s[start + k]);
    }
    if parts.len() == 1 {
        assert(join(parts, ", "@) == p0);
        assert(s.subrange(i, i + p0.len()) =~= p0);
        lemma_split_over(s, i, start, p0, 0);
        assert(s.subrange(start, s.len() as int) =~= w + p0);
        lemma_trim_ws_then(w, p0);
        assert(split_args_from(s, s.len() as int, start, 0) =~= seq![p0]);
        assert(parts =~= seq![p0]);
    } else {
        lemma_join_first(parts, ", "@);
        let rest = parts.skip(1);
        let j = i + p0.len();
        assert(s.subrange(i, s.len() as int) == p0 + ", "@ + join(rest, ", "@));
        assert(s.subrange(i, j) =~= p0) by {
            assert forall|k: int| 0 <= k < p0.len() implies s.subrange(i, j)[k] == p0[k] by {
                assert(s.subrange(i, s.len() as int)[k] == s[i + k]);
                assert((p0 + ", "@ + join(rest, ", "@))[k] == p0[k]);
            }
        }
        lemma_split_over(s, i, start, p0, 0);
        assert(s[j] == ',') by {
            assert(s.subrange(i, s.len() as int)[p0.len() as int] == s[j]);
        }
        assert(s[j + 1] == ' ') by {
            assert(s.subrange(i, s.len() as int)[p0.len() as int + 1] == s[j + 1]);
        }
        assert(s.subrange(start, j) =~= w + p0);
        lemma_trim_ws_then(w, p0);
        assert(split_args_from(s, j, start, 0) == seq![p0] + split_args_from(s, j + 1, j + 1, 0));
        assert(split_args_from(s, j + 1, j + 1, 0) == split_args_from(s, j + 2, j + 1, 0));
        assert(s.subrange(j + 2, s.len() as int) =~= join(rest, ", "@)) by {
            assert(s.subrange(i, s.len() as int) =~= p0 + ", "@ + join(rest, ", "@));
        }
        assert forall|q: int| 0 <= q < rest.len() implies one_piece(#[trigger] rest[q]) && solid(rest[q]) by {
            assert(rest[q] == parts[q + 1]);
        }
        lemma_split_join_from(s, j + 2, j + 1, rest);
        assert(parts =~= seq![p0] + rest);
    }
}

/// Splitting a list of solid pieces joined by `", "` gives the pieces back.
proof fn lemma_split_join(parts: Seq<Seq<char>>)
    requires
        parts.len() >= 1,
        forall|j: int| 0 <= j < parts.len() ==> one_piece(#[trigger] parts[j]) && solid(parts[j]),
    ensures
        split_args(join(parts, ", "@)) == parts,
{
    let s = join(parts, ", "@);
    assert(s.subrange(0, s.len() as int) =~= s);
    lemma_split_join_from(s, 0, 0, parts);
}

/// Pieces joined by `", "` are balanced.
proof fn lemma_join_balanced(parts: Seq<Seq<char>>)
    requires
        forall|j: int| 0 <= j < parts.len() ==> one_piece(#[trigger] parts[j]),
    ensures
        balanced(join(parts, ", "@)),
    decreases parts.len(),
{
    reveal_strlit(", ");
    if parts.len() == 1 {
        assert(one_piece(parts[0]));
        lemma_piece_nests(parts[0], 0);
    } else if parts.len() > 1 {
        let d = parts.drop_last();
        assert forall|j: int| 0 <= j < d.len() implies one_piece(#[trigger] d[j]) by {
            assert(d[j] == parts[j]);
        }
        lemma_join_balanced(d);
        assert(one_piece(parts[parts.len() - 1]));
        lemma_piece_nests(parts.last(), 0);
        let a = join(d, ", "@);
        lemma_nest_append(a + ", "@, parts.last(), 0);
        lemma_nest_append(a, ", "@, 0);
        assert(nest_end(", "@, 0) == Some(0int)) by {
            let c = ", "@;
            assert(c.len() == 2 && c[0] == ',' && c[1] == ' ');
            assert(c.drop_first()[0] == ' ');
            assert(c.drop_first().drop_first().len() == 0);
            assert(nest_end(c.drop_first(), 0) == nest_end(c.drop_first().drop_first(), 0));
        }
    }
}


/// A simple class name that reads back as itself: solid, in one piece, not
/// `void`, and not starting like any other kind of type.
pub open spec fn plain_name(s: Seq<char>) -> bool {
    &&& solid(s)
    &&& one_piece(s)
    &&& s != "void"@
    &&& !has_prefix(s, "T."@)
    &&& !has_prefix(s, "T::"@)
    &&& !has_prefix(s, "["@)
    &&& !has_prefix(s, "{"@)
    &&& !has_prefix(s, "Integer("@)
    &&& !has_prefix(s, "Symbol("@)
    &&& !has_prefix(s, "String("@)
}

/// A shape key that reads back as itself: in one piece, not starting with
/// whitespace, and without `": "`.
pub open spec fn key_ok(k: Seq<char>) -> bool {
    &&& one_piece(k)
    &&& (k.len() > 0 ==> !crate::text::is_ws(k[0]))
    &&& forall|j: int| 0 <= j && j + 1 < k.len() ==> !(#[trigger] k[j] == ':' && k[j + 1] == ' ')
}

/// A type whose notation reads back as the same type: its names are plain
/// or literal, its class names and keys read back, and no union or tuple
/// is empty.
pub open spec fn readable(m: TypeModel) -> bool
    decreases m, 1nat,
{
    match m {
        TypeModel::Simple(s) => plain_name(s),
        TypeModel::Nilable(b) => readable(*b),
        TypeModel::Union(v) => v.len() > 0 && all_readable(v),
        TypeModel::Array(b) => readable(*b),
        TypeModel::Hash(k, v) => readable(*k) && readable(*v),
        TypeModel::ClassOf(n) => balanced(n),
        TypeModel::Tuple(v) => v.len() > 0 && all_readable(v),
        TypeModel::Shape(f) => fields_readable(f),
        TypeModel::Literal(s) => is_literal_type(s) && one_piece(s),
        _ => true,
    }
}

/// Every type of the list is readable.
pub open spec fn all_readable(v: Seq<TypeModel>) -> bool
    decreases v, 0nat,
{
    forall|i: int| 0 <= i < v.len() ==> readable(#[trigger] v[i])
}

/// Every field of the shape has a readable key and type.
pub open spec fn fields_readable(f: Seq<(Seq<char>, TypeModel)>) -> bool
    decreases f, 0nat,
{
    forall|i: int| 0 <= i < f.len() ==> key_ok(#[trigger] f[i].0) && readable(f[i].1)
}

/// A text with prefix `pre` has the characters of `pre` at the start.
proof fn lemma_prefix_at(t: Seq<char>, pre: Seq<char>, k: int)
    requires
        has_prefix(t, pre),
        0 <= k < pre.len(),
    ensures
        t[k] == pre[k],
{
    assert(t.subrange(0, pre.len() as int)[k] == t[k]);
}

/// A text that differs from `q` at `k` neither starts with `q` nor is `q`.
proof fn lemma_differs(t: Seq<char>, q: Seq<char>, k: int)
    requires
        0 <= k < q.len(),
        k < t.len(),
        t[k] != q[k],
    ensures
        !has_prefix(t, q),
        t != q,
        spec_strip_prefix(t, q) is None,
{
    if has_prefix(t, q) {
        lemma_prefix_at(t, q, k);
    }
}

/// A text starting with `p`, which starts with `q`, starts with `q`.
proof fn lemma_prefix_trans(t: Seq<char>, p: Seq<char>, q: Seq<char>)
    requires
        has_prefix(t, p),
        has_prefix(p, q),
    ensures
        has_prefix(t, q),
{
    assert forall|k: int| 0 <= k < q.len() implies t.subrange(0, q.len() as int)[k] == q[k] by {
        lemma_prefix_at(t, p, k);
        lemma_prefix_at(p, q, k);
    }
    assert(t.subrange(0, q.len() as int) =~= q);
}

/// `pre`, a text and `suf` in a row lie between `pre` and `suf`.
proof fn lemma_between_wrap(pre: Seq<char>, inner: Seq<char>, suf: Seq<char>)
    ensures
        between(pre + inner + suf, pre, suf) == Some(inner),
        has_prefix(pre + inner + suf, pre),
{
    let t = pre + inner + suf;
    assert(t.subrange(0, pre.len() as int) =~= pre);
    assert(t.skip(pre.len() as int) =~= inner + suf);
    assert((inner + suf).subrange(inner.len() as int, (inner + suf).len() as int) =~= suf);
    assert((inner + suf).take(inner.len() as int) =~= inner);
}

/// A solid text is its own trim.
proof fn lemma_solid_trim(t: Seq<char>)
    requires
        solid(t),
    ensures
        trim(t) == t,
{
    lemma_trim_ws_then(Seq::empty(), t);
    assert(Seq::<char>::empty() + t =~= t);
}

/// The characters of the fixed texts of the notation.
proof fn lemma_notation_texts()
    ensures
        "T.untyped"@ =~= seq!['T', '.', 'u', 'n', 't', 'y', 'p', 'e', 'd'],
        "T.noreturn"@ =~= seq!['T', '.', 'n', 'o', 'r', 'e', 't', 'u', 'r', 'n'],
        "T::Boolean"@ =~= seq!['T', ':', ':', 'B', 'o', 'o', 'l', 'e', 'a', 'n'],
        "void"@ =~= seq!['v', 'o', 'i', 'd'],
        "T.nilable("@ =~= seq!['T', '.', 'n', 'i', 'l', 'a', 'b', 'l', 'e', '('],
        "T.any("@ =~= seq!['T', '.', 'a', 'n', 'y', '('],
        "T::Array["@ =~= seq!['T', ':', ':', 'A', 'r', 'r', 'a', 'y', '['],
        "T::Hash["@ =~= seq!['T', ':', ':', 'H', 'a', 's', 'h', '['],
        "T.class_of("@ =~= seq!['T', '.', 'c', 'l', 'a', 's', 's', '_', 'o', 'f', '('],
        "T."@ =~= seq!['T', '.'],
        "T::"@ =~= seq!['T', ':', ':'],
        "["@ =~= seq!['['],
        "]"@ =~= seq![']'],
        "{"@ =~= seq!['{'],
        "}"@ =~= seq!['}'],
        ")"@ =~= seq![')'],
        ", "@ =~= seq![',', ' '],
        ": "@ =~= seq![':', ' '],
        "Integer("@ =~= seq!['I', 'n', 't', 'e', 'g', 'e', 'r', '('],
        "Symbol("@ =~= seq!['S', 'y', 'm', 'b', 'o', 'l', '('],
        "String("@ =~= seq!['S', 't', 'r', 'i', 'n', 'g', '('],
{
    reveal_strlit("T.untyped");
    reveal_strlit("T.noreturn");
    reveal_strlit("T::Boolean");
    reveal_strlit("void");
    reveal_strlit("T.nilable(");
    reveal_strlit("T.any(");
    reveal_strlit("T::Array[");
    reveal_strlit("T::Hash[");
    reveal_strlit("T.class_of(");
    reveal_strlit("T.");
    reveal_strlit("T::");
    reveal_strlit("[");
    reveal_strlit("]");
    reveal_strlit("{");
    reveal_strlit("}");
    reveal_strlit(")");
    reveal_strlit(", ");
    reveal_strlit(": ");
    reveal_strlit("Integer(");
    reveal_strlit("Symbol(");
    reveal_strlit("String(");
}

/// A prefix ending with an opening bracket, a balanced text and a closing
/// bracket are in one piece together.
proof fn lemma_wrap_piece(pre: Seq<char>, inner: Seq<char>, suf: Seq<char>)
    requires
        scan_end(pre, 0) == Some(1int),
        balanced(inner),
        scan_end(suf, 1) == Some(0int),
    ensures
        one_piece(pre + inner + suf),
{
    lemma_scan_append(pre + inner, suf, 0);
    lemma_scan_append(pre, inner, 0);
    lemma_nest_inside(inner, 0);
}


/// The fixed texts that start with `T.` or `T::`.
proof fn lemma_notation_prefixes()
    ensures
        has_prefix("T.untyped"@, "T."@),
        has_prefix("T.noreturn"@, "T."@),
        has_prefix("T::Boolean"@, "T::"@),
        has_prefix("T.nilable("@, "T."@),
        has_prefix("T.any("@, "T."@),
        has_prefix("T::Array["@, "T::"@),
        has_prefix("T::Hash["@, "T::"@),
        has_prefix("T.class_of("@, "T."@),
{
    lemma_notation_texts();
    assert("T.untyped"@.subrange(0, 2) =~= "T."@);
    assert("T.noreturn"@.subrange(0, 2) =~= "T."@);
    assert("T::Boolean"@.subrange(0, 3) =~= "T::"@);
    assert("T.nilable("@.subrange(0, 2) =~= "T."@);
    assert("T.any("@.subrange(0, 2) =~= "T."@);
    assert("T::Array["@.subrange(0, 3) =~= "T::"@);
    assert("T::Hash["@.subrange(0, 3) =~= "T::"@);
    assert("T.class_of("@.subrange(0, 2) =~= "T."@);
}

/// How the fixed brackets of the notation nest.
proof fn lemma_notation_nesting()
    ensures
        scan_end("T.nilable("@, 0) == Some(1int),
        scan_end("T.any("@, 0) == Some(1int),
        scan_end("T::Array["@, 0) == Some(1int),
        scan_end("T::Hash["@, 0) == Some(1int),
        scan_end("T.class_of("@, 0) == Some(1int),
        scan_end("["@, 0) == Some(1int),
        scan_end("{"@, 0) == Some(1int),
        scan_end(")"@, 1) == Some(0int),
        scan_end("]"@, 1) == Some(0int),
        scan_end("}"@, 1) == Some(0int),
        scan_end(": "@, 0) == Some(0int),
{
    lemma_nest_text_0();
    lemma_nest_text_1();
    lemma_nest_text_2();
    lemma_nest_text_3();
    lemma_nest_text_4();
    lemma_nest_text_5();
    lemma_nest_text_6();
    lemma_nest_text_7();
    lemma_nest_text_8();
    lemma_nest_text_9();
    lemma_nest_text_10();
}

proof fn lemma_nest_text_0()
    ensures
        scan_end("T.nilable("@, 0) == Some(1int),
{
    reveal_strlit("T.nilable(");
    assert("T.nilable("@ =~= seq!['T', '.', 'n', 'i', 'l', 'a', 'b', 'l', 'e', '(']);
    reveal_with_fuel(scan_end, 12);
}

proof fn lemma_nest_text_1()
    ensures
        scan_end("T.any("@, 0) == Some(1int),
{
    reveal_strlit("T.any(");
    assert("T.any("@ =~= seq!['T', '.', 'a', 'n', 'y', '(']);
    reveal_with_fuel(scan_end, 12);
}

proof fn lemma_nest_text_2()
    ensures
        scan_end("T::Array["@, 0) == Some(1int),
{
    reveal_strlit("T::Array[");
    assert("T::Array["@ =~= seq!['T', ':', ':', 'A', 'r', 'r', 'a', 'y', '[']);
    reveal_with_fuel(scan_end, 12);
}

proof fn lemma_nest_text_3()
    ensures
        scan_end("T::Hash["@, 0) == Some(1int),
{
    reveal_strlit("T::Hash[");
    assert("T::Hash["@ =~= seq!['T', ':', ':', 'H', 'a', 's', 'h', '[']);
    reveal_with_fuel(scan_end, 12);
}

proof fn lemma_nest_text_4()
    ensures
        scan_end("T.class_of("@, 0) == Some(1int),
{
    reveal_strlit("T.class_of(");
    assert("T.class_of("@ =~= seq!['T', '.', 'c', 'l', 'a', 's', 's', '_', 'o', 'f', '(']);
    reveal_with_fuel(scan_end, 12);
}

proof fn lemma_nest_text_5()
    ensures
        scan_end("["@, 0) == Some(1int),
{
    reveal_strlit("[");
    assert("["@ =~= seq!['[']);
    reveal_with_fuel(scan_end, 12);
}

proof fn lemma_nest_text_6()
    ensures
        scan_end("{"@, 0) == Some(1int),
{
    reveal_strlit("{");
    assert("{"@ =~= seq!['{']);
    reveal_with_fuel(scan_end, 12);
}

proof fn lemma_nest_text_7()
    ensures
        scan_end(")"@, 1) == Some(0int),
{
    reveal_strlit(")");
    assert(")"@ =~= seq![')']);
    reveal_with_fuel(scan_end, 12);
}

proof fn lemma_nest_text_8()
    ensures
        scan_end("]"@, 1) == Some(0int),
{
    reveal_strlit("]");
    assert("]"@ =~= seq![']']);
    reveal_with_fuel(scan_end, 12);
}

proof fn lemma_nest_text_9()
    ensures
        scan_end("}"@, 1) == Some(0int),
{
    reveal_strlit("}");
    assert("}"@ =~= seq!['}']);
    reveal_with_fuel(scan_end, 12);
}

proof fn lemma_nest_text_10()
    ensures
        scan_end(": "@, 0) == Some(0int),
{
    reveal_strlit(": ");
    assert(": "@ =~= seq![':', ' ']);
    reveal_with_fuel(scan_end, 12);
}

/// The `Some` entries of a list that holds only `Some`s.
proof fn lemma_somes_all<A>(v: Seq<Option<A>>, g: Seq<A>)
    requires
        v.len() == g.len(),
        forall|i: int| 0 <= i < v.len() ==> #[trigger] v[i] == Some(g[i]),
    ensures
        somes(v) == g,
    decreases v.len(),
{
    if v.len() > 0 {
        assert forall|i: int| 0 <= i < v.drop_last().len() implies #[trigger] v.drop_last()[i] == Some(
            g.drop_last()[i],
        ) by {
            assert(v[i] == Some(g[i]));
        }
        lemma_somes_all(v.drop_last(), g.drop_last());
        assert(v[v.len() - 1] == Some(g[g.len() - 1]));
        assert(g.drop_last().push(g.last()) =~= g);
    }
}

/// A shape field written as `key: Type` reads back as the key and the type.
#[verifier::spinoff_prover]
#[verifier::rlimit(80)]
proof fn lemma_field_read(k: Seq<char>, r: Seq<char>, bound: nat)
    requires
        key_ok(k),
        one_piece(r),
        solid(r),
        k.len() + 2 + r.len() < bound,
    ensures
        one_piece(k + ": "@ + r),
        solid(k + ": "@ + r),
        shape_field(k + ": "@ + r, bound) == Some((k, spec_parse_type(r))),
{
    lemma_notation_texts();
    lemma_notation_nesting();
    let ft = k + ": "@ + r;
    lemma_scan_append(k + ": "@, r, 0);
    lemma_scan_append(k, ": "@, 0);
    let n = k.len() as int;
    assert(ft[n] == ':');
    assert(ft[n + 1] == ' ');
    if k.len() > 0 {
        assert(ft[0] == k[0]);
    }
    assert(ft.last() == r.last());
    assert(ft.subrange(n, n + 2) =~= ": "@);
    assert forall|j: int| 0 <= j < n implies !crate::text::occurs_at(ft, ": "@, j) by {
        if crate::text::occurs_at(ft, ": "@, j) {
            assert(ft.subrange(j, j + 2)[0] == ft[j]);
            assert(ft.subrange(j, j + 2)[1] == ft[j + 1]);
            if j + 1 < n {
                assert(ft[j] == k[j]);
                assert(ft[j + 1] == k[j + 1]);
            }
        }
    }
    crate::text::lemma_find_from_first(ft, ": "@, 0, n);
    assert(ft.take(n) =~= k);
    assert(ft.skip(n + 2) =~= r);
}

/// What reading back a written text gives: the type, in one piece, solid.
pub open spec fn reads_back(t: Seq<char>, m: TypeModel) -> bool {
    spec_parse_type(t) == m && one_piece(t) && solid(t)
}

/// A plain class name reads back as itself.
#[verifier::spinoff_prover]
#[verifier::rlimit(80)]
proof fn lemma_read_simple(s: Seq<char>)
    requires
        plain_name(s),
    ensures
        reads_back(s, TypeModel::Simple(s)),
{
    lemma_notation_texts();
    lemma_notation_prefixes();
    lemma_solid_trim(s);
    if has_prefix(s, "T.nilable("@) {
        lemma_prefix_trans(s, "T.nilable("@, "T."@);
    }
    if has_prefix(s, "T.any("@) {
        lemma_prefix_trans(s, "T.any("@, "T."@);
    }
    if has_prefix(s, "T::Array["@) {
        lemma_prefix_trans(s, "T::Array["@, "T::"@);
    }
    if has_prefix(s, "T::Hash["@) {
        lemma_prefix_trans(s, "T::Hash["@, "T::"@);
    }
    if has_prefix(s, "T.class_of("@) {
        lemma_prefix_trans(s, "T.class_of("@, "T."@);
    }
    if s == "T.untyped"@ {
        assert(has_prefix(s, "T."@));
    }
    if s == "T.noreturn"@ {
        assert(has_prefix(s, "T."@));
    }
    if s == "T::Boolean"@ {
        assert(has_prefix(s, "T::"@));
    }
}

/// A literal type reads back as itself.
#[verifier::spinoff_prover]
#[verifier::rlimit(80)]
proof fn lemma_read_literal(s: Seq<char>)
    requires
        is_literal_type(s),
        one_piece(s),
    ensures
        reads_back(s, TypeModel::Literal(s)),
{
    lemma_notation_texts();
    assert(s[s.len() - 1] == ')') by {
        assert(s.subrange(s.len() - 1, s.len() as int)[0] == s[s.len() - 1]);
    }
    if has_prefix(s, "Integer("@) {
        lemma_prefix_at(s, "Integer("@, 0);
    } else if has_prefix(s, "Symbol("@) {
        lemma_prefix_at(s, "Symbol("@, 0);
    } else {
        lemma_prefix_at(s, "String("@, 0);
    }
    lemma_solid_trim(s);
    lemma_differs(s, "T.untyped"@, 0);
    lemma_differs(s, "T.noreturn"@, 0);
    lemma_differs(s, "T::Boolean"@, 0);
    lemma_differs(s, "void"@, 0);
    lemma_differs(s, "T.nilable("@, 0);
    lemma_differs(s, "T.any("@, 0);
    lemma_differs(s, "T::Array["@, 0);
    lemma_differs(s, "T::Hash["@, 0);
    lemma_differs(s, "T.class_of("@, 0);
    lemma_differs(s, seq!['['], 0);
    lemma_differs(s, seq!['{'], 0);
}

/// The fixed types read back as themselves.
proof fn lemma_read_fixed(m: TypeModel)
    requires
        m is Boolean || m is Untyped || m is NoReturn || m is Void,
    ensures
        reads_back(type_text(m), m),
{
    lemma_notation_texts();
    let t = type_text(m);
    assert(scan_end(t, 0) == Some(0int)) by {
        reveal_with_fuel(scan_end, 12);
    }
    lemma_solid_trim(t);
    match m {
        TypeModel::NoReturn => {
            lemma_differs(t, "T.untyped"@, 2);
        },
        TypeModel::Boolean => {
            lemma_differs(t, "T.untyped"@, 1);
            lemma_differs(t, "T.noreturn"@, 1);
        },
        TypeModel::Void => {
            lemma_differs(t, "T.untyped"@, 0);
            lemma_differs(t, "T.noreturn"@, 0);
            lemma_differs(t, "T::Boolean"@, 0);
        },
        _ => {},
    }
}

/// `T.nilable(X)` reads back as a nilable `X`.
#[verifier::spinoff_prover]
#[verifier::rlimit(80)]
proof fn lemma_read_nilable(inner: Seq<char>, b: TypeModel)
    requires
        reads_back(inner, b),
    ensures
        reads_back("T.nilable("@ + inner + ")"@, TypeModel::Nilable(Box::new(b))),
{
    lemma_notation_texts();
    lemma_notation_nesting();
    let t = "T.nilable("@ + inner + ")"@;
    lemma_piece_nests(inner, 0);
    lemma_wrap_piece("T.nilable("@, inner, ")"@);
    lemma_between_wrap("T.nilable("@, inner, ")"@);
    assert(t[0] == 'T' && t[1] == '.' && t[2] == 'n' && t[3] == 'i');
    assert(t.last() == ')');
    lemma_solid_trim(t);
    lemma_differs(t, "T.untyped"@, 2);
    lemma_differs(t, "T.noreturn"@, 3);
    lemma_differs(t, "T::Boolean"@, 1);
    lemma_differs(t, "void"@, 0);
}

/// `T::Array[X]` reads back as an array of `X`.
#[verifier::spinoff_prover]
#[verifier::rlimit(80)]
proof fn lemma_read_array(inner: Seq<char>, b: TypeModel)
    requires
        reads_back(inner, b),
    ensures
        reads_back("T::Array["@ + inner + "]"@, TypeModel::Array(Box::new(b))),
{
    lemma_notation_texts();
    lemma_notation_nesting();
    let t = "T::Array["@ + inner + "]"@;
    lemma_piece_nests(inner, 0);
    lemma_wrap_piece("T::Array["@, inner, "]"@);
    lemma_between_wrap("T::Array["@, inner, "]"@);
    assert(t[0] == 'T' && t[1] == ':' && t[3] == 'A');
    assert(t.last() == ']');
    lemma_solid_trim(t);
    lemma_differs(t, "T.untyped"@, 1);
    lemma_differs(t, "T.noreturn"@, 1);
    lemma_differs(t, "T::Boolean"@, 3);
    lemma_differs(t, "void"@, 0);
    lemma_differs(t, "T.nilable("@, 1);
    lemma_differs(t, "T.any("@, 1);
}

/// `T.class_of(N)` reads back as the class of `N`.
#[verifier::spinoff_prover]
#[verifier::rlimit(80)]
proof fn lemma_read_class_of(n: Seq<char>)
    requires
        balanced(n),
    ensures
        reads_back("T.class_of("@ + n + ")"@, TypeModel::ClassOf(n)),
{
    lemma_notation_texts();
    lemma_notation_nesting();
    let t = "T.class_of("@ + n + ")"@;
    lemma_wrap_piece("T.class_of("@, n, ")"@);
    lemma_between_wrap("T.class_of("@, n, ")"@);
    assert(t[0] == 'T' && t[1] == '.' && t[2] == 'c');
    assert(t.last() == ')');
    lemma_solid_trim(t);
    lemma_differs(t, "T.untyped"@, 2);
    lemma_differs(t, "T.noreturn"@, 2);
    lemma_differs(t, "T::Boolean"@, 1);
    lemma_differs(t, "void"@, 0);
    lemma_differs(t, "T.nilable("@, 2);
    lemma_differs(t, "T.any("@, 2);
    lemma_differs(t, "T::Array["@, 1);
    lemma_differs(t, "T::Hash["@, 1);
}

/// `T::Hash[K, V]` reads back as a hash from `K` to `V`.
#[verifier::spinoff_prover]
#[verifier::rlimit(80)]
proof fn lemma_read_hash(rk: Seq<char>, k: TypeModel, rv: Seq<char>, v: TypeModel)
    requires
        reads_back(rk, k),
        reads_back(rv, v),
    ensures
        reads_back(
            "T::Hash["@ + rk + ", "@ + rv + "]"@,
            TypeModel::Hash(Box::new(k), Box::new(v)),
        ),
{
    lemma_notation_texts();
    lemma_notation_nesting();
    let inner = rk + ", "@ + rv;
    let t = "T::Hash["@ + inner + "]"@;
    assert("T::Hash["@ + rk + ", "@ + rv + "]"@ =~= t);
    let parts = seq![rk, rv];
    assert(parts.drop_last() =~= seq![rk]);
    assert(join(parts.drop_last(), ", "@) == rk);
    assert(parts.last() == rv);
    assert(join(parts, ", "@) == inner);
    lemma_split_join(parts);
    lemma_join_balanced(parts);
    lemma_wrap_piece("T::Hash["@, inner, "]"@);
    lemma_between_wrap("T::Hash["@, inner, "]"@);
    assert(t[0] == 'T' && t[1] == ':' && t[3] == 'H');
    assert(t.last() == ']');
    lemma_solid_trim(t);
    lemma_differs(t, "T.untyped"@, 1);
    lemma_differs(t, "T.noreturn"@, 1);
    lemma_differs(t, "T::Boolean"@, 3);
    lemma_differs(t, "void"@, 0);
    lemma_differs(t, "T.nilable("@, 1);
    lemma_differs(t, "T.any("@, 1);
    lemma_differs(t, "T::Array["@, 3);
}

/// `T.any(A, B, ..)` reads back as the union of the types the pieces read
/// back as.
#[verifier::spinoff_prover]
#[verifier::rlimit(80)]
proof fn lemma_read_union(v: Seq<TypeModel>)
    requires
        v.len() > 0,
        forall|i: int| 0 <= i < v.len() ==> reads_back(#[trigger] texts(v)[i], v[i]),
    ensures
        reads_back("T.any("@ + join(texts(v), ", "@) + ")"@, TypeModel::Union(v)),
{
    lemma_notation_texts();
    lemma_notation_nesting();
    let parts = texts(v);
    let inner = join(parts, ", "@);
    let t = "T.any("@ + inner + ")"@;
    assert forall|j: int| 0 <= j < parts.len() implies one_piece(#[trigger] parts[j]) && solid(parts[j]) by {
        assert(reads_back(parts[j], v[j]));
    }
    lemma_split_join(parts);
    lemma_join_balanced(parts);
    lemma_split_args_len(inner);
    lemma_wrap_piece("T.any("@, inner, ")"@);
    lemma_between_wrap("T.any("@, inner, ")"@);
    assert(t[0] == 'T' && t[1] == '.' && t[2] == 'a');
    assert(t.last() == ')');
    lemma_solid_trim(t);
    lemma_differs(t, "T.untyped"@, 2);
    lemma_differs(t, "T.noreturn"@, 2);
    lemma_differs(t, "T::Boolean"@, 1);
    lemma_differs(t, "void"@, 0);
    lemma_differs(t, "T.nilable("@, 2);
    let got = spec_parse_type(t);
    assert(got->Union_0 =~= v) by {
        assert forall|i: int| 0 <= i < v.len() implies got->Union_0[i] == v[i] by {
            assert(reads_back(parts[i], v[i]));
            assert(split_args(inner)[i].len() <= inner.len());
        }
    }
}

/// `[A, B, ..]` reads back as the tuple of the types the pieces read back
/// as.
#[verifier::spinoff_prover]
#[verifier::rlimit(80)]
proof fn lemma_read_tuple(v: Seq<TypeModel>)
    requires
        v.len() > 0,
        forall|i: int| 0 <= i < v.len() ==> reads_back(#[trigger] texts(v)[i], v[i]),
    ensures
        reads_back("["@ + join(texts(v), ", "@) + "]"@, TypeModel::Tuple(v)),
{
    lemma_notation_texts();
    lemma_notation_nesting();
    let parts = texts(v);
    let inner = join(parts, ", "@);
    let t = "["@ + inner + "]"@;
    assert forall|j: int| 0 <= j < parts.len() implies one_piece(#[trigger] parts[j]) && solid(parts[j]) by {
        assert(reads_back(parts[j], v[j]));
    }
    lemma_split_join(parts);
    lemma_join_balanced(parts);
    lemma_split_args_len(inner);
    lemma_wrap_piece("["@, inner, "]"@);
    assert(t[0] == '[');
    assert(t.last() == ']');
    assert(t.subrange(1, t.len() - 1) =~= inner);
    assert(has_prefix(t, seq!['['])) by {
        assert(t.subrange(0, 1) =~= seq!['[']);
    }
    assert(has_suffix(t, seq![']'])) by {
        assert(t.subrange(t.len() - 1, t.len() as int) =~= seq![']']);
    }
    lemma_solid_trim(t);
    lemma_differs(t, "T.untyped"@, 0);
    lemma_differs(t, "T.noreturn"@, 0);
    lemma_differs(t, "T::Boolean"@, 0);
    lemma_differs(t, "void"@, 0);
    lemma_differs(t, "T.nilable("@, 0);
    lemma_differs(t, "T.any("@, 0);
    lemma_differs(t, "T::Array["@, 0);
    lemma_differs(t, "T::Hash["@, 0);
    lemma_differs(t, "T.class_of("@, 0);
    let got = spec_parse_type(t);
    assert(got->Tuple_0 =~= v) by {
        assert forall|i: int| 0 <= i < v.len() implies got->Tuple_0[i] == v[i] by {
            assert(reads_back(parts[i], v[i]));
            assert(split_args(inner)[i].len() <= inner.len());
        }
    }
}

/// `{k: A, ..}` reads back as the shape of the keys and the types the
/// values read back as.
#[verifier::spinoff_prover]
#[verifier::rlimit(80)]
proof fn lemma_read_shape(f: Seq<(Seq<char>, TypeModel)>)
    requires
        forall|i: int| 0 <= i < f.len() ==> key_ok(#[trigger] f[i].0) && reads_back(
            type_text(f[i].1),
            f[i].1,
        ),
    ensures
        reads_back("{"@ + join(field_texts(f), ", "@) + "}"@, TypeModel::Shape(f)),
{
    lemma_notation_texts();
    lemma_notation_nesting();
    let parts = field_texts(f);
    let inner = join(parts, ", "@);
    let t = "{"@ + inner + "}"@;
    let bound = t.len();
    if f.len() > 0 {
        assert forall|j: int| 0 <= j < parts.len() implies one_piece(#[trigger] parts[j]) && solid(
            parts[j],
        ) by {
            let key = f[j].0;
            assert(key_ok(key) && reads_back(type_text(f[j].1), f[j].1));
            assert(parts[j] == key + ": "@ + type_text(f[j].1));
            lemma_field_read(key, type_text(f[j].1), parts[j].len() + 1);
        }
        lemma_split_join(parts);
        lemma_join_balanced(parts);
        lemma_split_args_len(inner);
        let fields = shape_fields_of(parts, bound);
        assert forall|j: int| 0 <= j < fields.len() implies #[trigger] fields[j] == Some(f[j]) by {
            let key = f[j].0;
            assert(key_ok(key) && reads_back(type_text(f[j].1), f[j].1));
            assert(split_args(inner)[j].len() <= inner.len());
            assert(parts[j] == key + ": "@ + type_text(f[j].1));
            lemma_field_read(key, type_text(f[j].1), bound);
        }
        lemma_somes_all(fields, f);
    } else {
        assert(inner =~= Seq::<char>::empty());
        assert(nest_end(inner, 0) == Some(0int));
        assert(split_args(inner) =~= seq![trim(Seq::<char>::empty())]);
        assert(trim(Seq::<char>::empty()) =~= Seq::<char>::empty());
        assert(spec_find(Seq::<char>::empty(), ": "@) is None);
        let fields = shape_fields_of(split_args(inner), bound);
        assert(fields =~= seq![None]);
        assert(somes(fields) =~= somes(fields.drop_last()));
        assert(fields.drop_last() =~= Seq::<Option<(Seq<char>, TypeModel)>>::empty());
    }
    lemma_wrap_piece("{"@, inner, "}"@);
    assert(t[0] == '{');
    assert(t.last() == '}');
    assert(t.subrange(1, t.len() - 1) =~= inner);
    assert(has_prefix(t, seq!['{'])) by {
        assert(t.subrange(0, 1) =~= seq!['{']);
    }
    assert(has_suffix(t, seq!['}'])) by {
        assert(t.subrange(t.len() - 1, t.len() as int) =~= seq!['}']);
    }
    lemma_solid_trim(t);
    lemma_differs(t, "T.untyped"@, 0);
    lemma_differs(t, "T.noreturn"@, 0);
    lemma_differs(t, "T::Boolean"@, 0);
    lemma_differs(t, "void"@, 0);
    lemma_differs(t, "T.nilable("@, 0);
    lemma_differs(t, "T.any("@, 0);
    lemma_differs(t, "T::Array["@, 0);
    lemma_differs(t, "T::Hash["@, 0);
    lemma_differs(t, "T.class_of("@, 0);
    lemma_differs(t, seq!['['], 0);
}

/// A readable type's notation reads back as the type; it is in one piece
/// and neither empty nor padded with whitespace.
pub proof fn lemma_read_written(m: TypeModel)
    requires
        readable(m),
    ensures
        spec_parse_type(type_text(m)) == m,
        one_piece(type_text(m)),
        solid(type_text(m)),
    decreases m, 1nat,
{
    match m {
        TypeModel::Simple(s) => lemma_read_simple(s),
        TypeModel::Literal(s) => lemma_read_literal(s),
        TypeModel::Nilable(b) => {
            lemma_read_written(*b);
            lemma_read_nilable(type_text(*b), *b);
        },
        TypeModel::Array(b) => {
            lemma_read_written(*b);
            lemma_read_array(type_text(*b), *b);
        },
        TypeModel::Hash(k, v) => {
            lemma_read_written(*k);
            lemma_read_written(*v);
            lemma_read_hash(type_text(*k), *k, type_text(*v), *v);
        },
        TypeModel::ClassOf(n) => lemma_read_class_of(n),
        TypeModel::Union(v) => {
            assert(all_readable(v));
            assert forall|i: int| 0 <= i < v.len() implies reads_back(#[trigger] texts(v)[i], v[i]) by {
                assert(readable(v[i]));
                lemma_read_written(v[i]);
            }
            lemma_read_union(v);
        },
        TypeModel::Tuple(v) => {
            assert(all_readable(v));
            assert forall|i: int| 0 <= i < v.len() implies reads_back(#[trigger] texts(v)[i], v[i]) by {
                assert(readable(v[i]));
                lemma_read_written(v[i]);
            }
            lemma_read_tuple(v);
        },
        TypeModel::Shape(f) => {
            assert(fields_readable(f));
            assert forall|i: int| 0 <= i < f.len() implies key_ok(#[trigger] f[i].0) && reads_back(
                type_text(f[i].1),
                f[i].1,
            ) by {
                assert(key_ok(f[i].0) && readable(f[i].1));
                lemma_read_written(f[i].1);
            }
            lemma_read_shape(f);
        },
        _ => lemma_read_fixed(m),
    }
}

} // verus!

//! Sorbet's `--print=symbol-table-json` tree and the names it gives to
//! symbol ids.
use std::collections::HashMap;

use vstd::prelude::*;

use crate::text::{append, append_str, eq_str, string_from_chars, to_chars};

verus! {

broadcast use {
    vstd::seq_lib::group_seq_properties,
    vstd::string::group_string_axioms,
    vstd::std_specs::hash::group_hash_axioms,
};

/// The whole symbol table.
#[derive(Debug)]
pub struct SymbolTree {
    pub root: RawSymbol,
}

/// One symbol: a class or module, a method, a field, ...
#[derive(Debug)]
pub struct RawSymbol {
    pub id: u64,
    pub name: SymbolName,
    pub kind: String,
    pub super_class: Option<u64>,
    pub mixins: Option<Vec<u64>>,
    pub is_module: Option<bool>,
    pub arguments: Option<Vec<RawArgument>>,
    pub children: Option<Vec<RawSymbol>>,
}

/// The name of a symbol.
#[derive(Debug)]
pub struct SymbolName {
    pub kind: String,
    pub name: String,
    pub unique: Option<String>,
}

/// One argument of a method symbol.
#[derive(Debug)]
pub struct RawArgument {
    pub name: SymbolName,
    pub is_block: Option<bool>,
}

/// The symbol table's JSON could not be read; the message says why.
#[derive(Debug)]
pub enum SymbolTableParseError {
    Json(String),
}

/// The name of the root symbol.
pub open spec fn root_name() -> Seq<char> {
    "<root>"@
}

/// Fully qualified name of a symbol named `name` under `parent`.
pub open spec fn symbol_fqn(name: Seq<char>, parent: Seq<char>) -> Seq<char> {
    if parent.len() == 0 || name == root_name() {
        name
    } else {
        parent + "::"@ + name
    }
}

/// `m` with the names of `sym` and its descendants added, in pre-order; a
/// later symbol with the same id replaces an earlier one.
pub open spec fn id_map_into(sym: RawSymbol, parent: Seq<char>, m: Map<u64, Seq<char>>) -> Map<
    u64,
    Seq<char>,
>
    decreases sym, 0int,
{
    let name = sym.name.name@;
    let fqn = symbol_fqn(name, parent);
    let m1 = if name != root_name() {
        m.insert(sym.id, fqn)
    } else {
        m
    };
    let cur = if name == root_name() {
        Seq::empty()
    } else {
        fqn
    };
    match sym.children {
        Some(cs) => children_id_map(cs@, 0, cur, m1),
        None => m1,
    }
}

/// `m` with the names of `cs[i..]` and their descendants added.
pub open spec fn children_id_map(cs: Seq<RawSymbol>, i: int, parent: Seq<char>, m: Map<u64, Seq<char>>) -> Map<
    u64,
    Seq<char>,
>
    decreases cs, cs.len() - i,
{
    if i >= cs.len() || i < 0 {
        m
    } else {
        children_id_map(cs, i + 1, parent, id_map_into(cs[i], parent, m))
    }
}

/// The names held by a map of strings.
pub open spec fn string_map(m: Map<u64, String>) -> Map<u64, Seq<char>> {
    m.map_values(|s: String| s@)
}

impl SymbolTree {
    /// The fully qualified name of every symbol but the root, by id.
    pub fn build_id_map(&self) -> (m: HashMap<u64, String>)
        ensures
            string_map(m@) == id_map_into(self.root, Seq::empty(), Map::empty()),
    {
        let mut map: HashMap<u64, String> = HashMap::new();
        let empty: Vec<char> = Vec::new();
        assert(string_map(map@) =~= Map::empty());
        build_id_map_recursive(&self.root, &empty, &mut map);
        map
    }
}

/// The fully qualified name of a symbol named `name` under `parent`.
fn qualified(name: &Vec<char>, parent: &Vec<char>) -> (r: Vec<char>)
    ensures
        r@ == symbol_fqn(name@, parent@),
{
    if parent.len() == 0 || eq_str(name, "<root>") {
        let mut r: Vec<char> = Vec::new();
        append(&mut r, name);
        r
    } else {
        let mut r: Vec<char> = Vec::new();
        append(&mut r, parent);
        append_str(&mut r, "::");
        append(&mut r, name);
        r
    }
}

fn build_id_map_recursive(symbol: &RawSymbol, parent_fqn: &Vec<char>, map: &mut HashMap<u64, String>)
    ensures
        string_map(final(map)@) == id_map_into(*symbol, parent_fqn@, string_map(old(map)@)),
    decreases symbol, 0int,
{
    let name = to_chars(symbol.name.name.as_str());
    let fqn = qualified(&name, parent_fqn);
    let is_root = eq_str(&name, "<root>");
    if !is_root {
        let ghost prev = map@;
        let s = string_from_chars(&fqn);
        map.insert(symbol.id, s);
        assert(string_map(map@) =~= string_map(prev).insert(symbol.id, fqn@));
    }
    let cur: Vec<char> = if is_root {
        Vec::new()
    } else {
        fqn
    };
    assert(cur@ == (if name@ == root_name() {
        Seq::empty()
    } else {
        symbol_fqn(name@, parent_fqn@)
    }));
    match &symbol.children {
        Some(children) => {
            children_id_map_exec(children, &cur, map);
        },
        None => {},
    }
}

fn children_id_map_exec(cs: &Vec<RawSymbol>, parent: &Vec<char>, map: &mut HashMap<u64, String>)
    ensures
        string_map(final(map)@) == children_id_map(cs@, 0, parent@, string_map(old(map)@)),
    decreases cs@, cs@.len() + 1,
{
    let mut i: usize = 0;
    while i < cs.len()
        invariant
            i <= cs.len(),
            children_id_map(cs@, 0, parent@, string_map(old(map)@)) == children_id_map(
                cs@,
                i as int,
                parent@,
                string_map(map@),
            ),
        decreases cs.len() - i,
    {
        build_id_map_recursive(&cs[i], parent, map);
        i += 1;
    }
}

} // verus!

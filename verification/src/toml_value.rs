//! Values of a TOML config, as far as the runner reads them.
//!
//! A value that the runner only hands on (a float, a date, a table, and an array as
//! a whole) is held by its rendering.

use crate::names::{texts, to_set_push, NameMap};
use crate::text::{debug_text, decimal_i64, decimal_int, quoted};
use vstd::prelude::*;

verus! {

/// An element of an array.
#[derive(Debug, PartialEq, Eq)]
pub enum TomlItem {
    Text(String),
    Integer(i64),
    /// Anything else, as it is shown for debugging.
    Other(String),
}

/// A value.
#[derive(Debug, PartialEq, Eq)]
pub enum TomlValue {
    Text(String),
    Integer(i64),
    Boolean(bool),
    /// An array with its rendering.
    Array { items: Vec<TomlItem>, rendered: String },
    /// Anything else, as rendered and as it is shown for debugging.
    Other { rendered: String, debug: String },
}

/// What an element of an array is.
pub enum ItemView {
    Text(Seq<char>),
    Integer(i64),
    Other(Seq<char>),
}

/// What a value is.
pub enum ValueView {
    Text(Seq<char>),
    Integer(i64),
    Boolean(bool),
    Array { items: Seq<ItemView>, rendered: Seq<char> },
    Other { rendered: Seq<char>, debug: Seq<char> },
}

impl TomlItem {
    pub open spec fn view(&self) -> ItemView {
        match self {
            TomlItem::Text(s) => ItemView::Text(s@),
            TomlItem::Integer(n) => ItemView::Integer(*n),
            TomlItem::Other(s) => ItemView::Other(s@),
        }
    }
}

impl ItemView {
    /// The element as error messages show it.
    pub open spec fn debug(self) -> Seq<char> {
        match self {
            ItemView::Text(s) => "String("@ + debug_text(s) + ")"@,
            ItemView::Integer(n) => "Integer("@ + decimal_int(n as int) + ")"@,
            ItemView::Other(s) => s,
        }
    }
}

/// The elements of an array.
pub open spec fn item_views(items: Seq<TomlItem>) -> Seq<ItemView> {
    Seq::new(items.len(), |i: int| items[i]@)
}

impl TomlValue {
    pub open spec fn view(&self) -> ValueView {
        match self {
            TomlValue::Text(s) => ValueView::Text(s@),
            TomlValue::Integer(n) => ValueView::Integer(*n),
            TomlValue::Boolean(b) => ValueView::Boolean(*b),
            TomlValue::Array { items, rendered } => ValueView::Array {
                items: item_views(items@),
                rendered: rendered@,
            },
            TomlValue::Other { rendered, debug } => ValueView::Other {
                rendered: rendered@,
                debug: debug@,
            },
        }
    }
}

impl ValueView {
    /// The value as a command line argument: a string without quotes, a number in
    /// decimal, anything else as rendered.
    pub open spec fn text(self) -> Seq<char> {
        match self {
            ValueView::Text(s) => s,
            ValueView::Integer(n) => decimal_int(n as int),
            ValueView::Boolean(b) => if b {
                "true"@
            } else {
                "false"@
            },
            ValueView::Array { items, rendered } => rendered,
            ValueView::Other { rendered, debug } => rendered,
        }
    }

    /// The value as error messages show it.
    pub open spec fn debug(self) -> Seq<char> {
        match self {
            ValueView::Text(s) => "String("@ + debug_text(s) + ")"@,
            ValueView::Integer(n) => "Integer("@ + decimal_int(n as int) + ")"@,
            ValueView::Boolean(b) => "Boolean("@ + (if b {
                "true"@
            } else {
                "false"@
            }) + ")"@,
            ValueView::Array { items, rendered } => rendered,
            ValueView::Other { rendered, debug } => debug,
        }
    }
}

impl Clone for TomlItem {
    fn clone(&self) -> (r: Self)
        ensures
            r == *self,
    {
        match self {
            TomlItem::Text(s) => TomlItem::Text(s.clone()),
            TomlItem::Integer(n) => TomlItem::Integer(*n),
            TomlItem::Other(s) => TomlItem::Other(s.clone()),
        }
    }
}

impl Clone for TomlValue {
    fn clone(&self) -> (r: Self)
        ensures
            r@ == self@,
    {
        match self {
            TomlValue::Text(s) => TomlValue::Text(s.clone()),
            TomlValue::Integer(n) => TomlValue::Integer(*n),
            TomlValue::Boolean(b) => TomlValue::Boolean(*b),
            TomlValue::Array { items, rendered } => {
                let mut copy: Vec<TomlItem> = Vec::new();
                for i in 0..items.len()
                    invariant
                        copy@ == items@.take(i as int),
                {
                    copy.push(items[i].clone());
                }
                assert(copy@ =~= items@);
                TomlValue::Array { items: copy, rendered: rendered.clone() }
            },
            TomlValue::Other { rendered, debug } => TomlValue::Other {
                rendered: rendered.clone(),
                debug: debug.clone(),
            },
        }
    }
}

/// A table of values.
pub type Table = NameMap<TomlValue>;

/// What a table holds.
pub type TableView = Map<Seq<char>, ValueView>;

/// What the table holds.
pub open spec fn table_view(t: Table) -> TableView {
    t@.map_values(|v: TomlValue| v@)
}

/// What the table holds, if there is one.
pub open spec fn optional_table_view(t: Option<Table>) -> Option<TableView> {
    match t {
        Some(t) => Some(table_view(t)),
        None => None,
    }
}

/// A table with the same values.
pub fn copy_table(t: &Table) -> (r: Table)
    ensures
        table_view(r) == table_view(*t),
{
    let r = t.clone();
    proof {
        assert forall|k: Seq<char>| t@.contains_key(k) implies r@[k]@ == t@[k]@ by {
            assert(cloned(t@[k], r@[k]));
        }
        assert(table_view(r) =~= table_view(*t));
    }
    r
}

/// The value as a command line argument.
pub fn toml_value_to_string(val: &TomlValue) -> (r: String)
    ensures
        r@ == val@.text(),
{
    match val {
        TomlValue::Text(s) => s.clone(),
        TomlValue::Integer(n) => decimal_i64(*n),
        TomlValue::Boolean(b) => if *b {
            "true".to_owned()
        } else {
            "false".to_owned()
        },
        TomlValue::Array { items, rendered } => rendered.clone(),
        TomlValue::Other { rendered, debug } => rendered.clone(),
    }
}

fn in_call(name: &str, text: &str) -> (r: String)
    ensures
        r@ == name@ + text@ + ")"@,
{
    let mut s = name.to_owned();
    s.append(text);
    s.append(")");
    s
}

/// The element as error messages show it.
pub fn item_debug(item: &TomlItem) -> (r: String)
    ensures
        r@ == item@.debug(),
{
    match item {
        TomlItem::Text(s) => in_call("String(", quoted(s.as_str()).as_str()),
        TomlItem::Integer(n) => in_call("Integer(", decimal_i64(*n).as_str()),
        TomlItem::Other(s) => s.clone(),
    }
}

/// The value as error messages show it.
pub fn value_debug(val: &TomlValue) -> (r: String)
    ensures
        r@ == val@.debug(),
{
    match val {
        TomlValue::Text(s) => in_call("String(", quoted(s.as_str()).as_str()),
        TomlValue::Integer(n) => in_call("Integer(", decimal_i64(*n).as_str()),
        TomlValue::Boolean(b) => in_call("Boolean(", if *b {
            "true"
        } else {
            "false"
        }),
        TomlValue::Array { items, rendered } => rendered.clone(),
        TomlValue::Other { rendered, debug } => debug.clone(),
    }
}

/// Puts the entries of `source` into `target` where it has none of that name.
pub fn merge_table_keys(target: &mut Table, source: &Table)
    ensures
        table_view(*final(target)) == table_view(*source).union_prefer_right(table_view(*old(target))),
{
    let keys = source.keys();
    let n: usize = keys.len();
    let ghost first = table_view(*target);
    let ghost src = table_view(*source);
    let ghost t = texts(keys@);
    assert(src.restrict(t.take(0).to_set()).union_prefer_right(first) =~= first) by {
        assert(t.take(0) =~= Seq::empty());
    }
    for i in 0..n
        invariant
            n == keys.len(),
            t == texts(keys@),
            t.to_set() == source@.dom(),
            src == table_view(*source),
            table_view(*target) == src.restrict(t.take(i as int).to_set()).union_prefer_right(first),
    {
        let key = keys[i].as_str();
        proof {
            assert(t[i as int] == key@);
            assert(t.to_set().contains(t[i as int]));
        }
        match source.get(key) {
            Some(v) => {
                let copy = v.clone();
                let ghost before = table_view(*target);
                let ghost had = target@.contains_key(key@);
                let ghost value = copy@;
                target.insert_new(keys[i].clone(), copy);
                proof {
                    assert(value == src[key@]);
                    assert(table_view(*target) =~= (if had {
                        before
                    } else {
                        before.insert(key@, value)
                    }));
                    assert(had == before.contains_key(key@));
                    let now = t.take(i + 1).to_set();
                    assert(t.take(i + 1) =~= t.take(i as int).push(t[i as int]));
                    to_set_push(t.take(i as int), t[i as int]);
                    assert(table_view(*target) =~= src.restrict(now).union_prefer_right(first));
                }
            },
            None => {
                assert(false);
            },
        }
    }
    proof {
        assert(t.take(t.len() as int) =~= t);
        assert(src.restrict(t.to_set()) =~= src);
    }
}

/// A value on a command line: a string is just its text, a number its decimal text, a truth
/// value its word, and anything else as it was rendered.
pub proof fn values_on_a_command_line(v: ValueView)
    ensures
        match v {
            ValueView::Text(s) => v.text() == s,
            ValueView::Integer(n) => v.text() == decimal_int(n as int),
            ValueView::Boolean(b) => v.text() == (if b {
                "true"@
            } else {
                "false"@
            }),
            ValueView::Array { items, rendered } => v.text() == rendered,
            ValueView::Other { rendered, debug } => v.text() == rendered,
        },
{
}

/// What a value of the config is taken for is what it is: a text, a number or a truth value
/// as it stands, and an array element by element.
pub proof fn values_are_taken_for_what_they_are(v: TomlValue)
    ensures
        match v {
            TomlValue::Text(s) => v@ == ValueView::Text(s@),
            TomlValue::Integer(n) => v@ == ValueView::Integer(n),
            TomlValue::Boolean(b) => v@ == ValueView::Boolean(b),
            TomlValue::Array { items, rendered } => {
                &&& v@ is Array && v@->Array_rendered == rendered@
                &&& v@->items.len() == items@.len()
                &&& forall|i: int|
                    0 <= i < items@.len() ==> match #[trigger] items@[i] {
                        TomlItem::Text(s) => v@->items[i] == ItemView::Text(s@),
                        TomlItem::Integer(n) => v@->items[i] == ItemView::Integer(n),
                        TomlItem::Other(s) => v@->items[i] == ItemView::Other(s@),
                    }
            },
            TomlValue::Other { rendered, debug } => v@ is Other && v@->Other_rendered == rendered@,
        },
{
}

/// A table holds the values that are kept under its keys.
pub proof fn tables_hold_their_values(t: Table, key: Seq<char>)
    ensures
        table_view(t).contains_key(key) <==> t@.contains_key(key),
        t@.contains_key(key) ==> table_view(t)[key] == t@[key]@,
{
}

/// How values are shown in errors: texts, integers and booleans with their kind around them,
/// and any other as it was given.
pub proof fn values_are_shown_with_their_kind(v: ValueView, item: ItemView)
    ensures
        match v {
            ValueView::Text(s) => v.debug() == "String("@ + debug_text(s) + ")"@,
            ValueView::Integer(n) => v.debug() == "Integer("@ + decimal_int(n as int) + ")"@,
            ValueView::Boolean(b) => v.debug() == if b {
                "Boolean("@ + "true"@ + ")"@
            } else {
                "Boolean("@ + "false"@ + ")"@
            },
            ValueView::Array { items, rendered } => v.debug() == rendered,
            ValueView::Other { rendered, debug } => v.debug() == debug,
        },
        match item {
            ItemView::Text(s) => item.debug() == "String("@ + debug_text(s) + ")"@,
            ItemView::Integer(n) => item.debug() == "Integer("@ + decimal_int(n as int) + ")"@,
            ItemView::Other(s) => item.debug() == s,
        },
{
}

/// Where the keys of one table are put into another, what was there stays, and what was not is
/// what the first one says.
pub proof fn merged_keys_do_not_replace(target: &mut Table, source: &Table, r: (), key: Seq<char>)
    requires
        call_ensures(merge_table_keys, (target, source), r),
    ensures
        ({
            let (was, is, from) = (table_view(*old(target)), table_view(*final(target)), table_view(*source));
            &&& is.contains_key(key) <==> was.contains_key(key) || from.contains_key(key)
            &&& was.contains_key(key) ==> is[key] == was[key]
            &&& !was.contains_key(key) && from.contains_key(key) ==> is[key] == from[key]
        }),
{
}

} // verus!

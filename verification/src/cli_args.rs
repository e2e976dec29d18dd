//! Command lines: what the operator overrides, and what a variant is started with.

use crate::config::{lookup, ThreadingMode, VariantConfig, VariantView};
use crate::names::{listing, listing_holds, texts, NameMap};
use crate::text::{chars_of, decimal, decimal_u64, same};
use crate::toml_value::{
    copy_table, table_view, toml_value_to_string, Table, TableView, TomlValue, ValueView,
};
use vstd::prelude::*;

verus! {

// ---------------------------------------------------------------------
// Flags
// ---------------------------------------------------------------------

/// The key with dashes in place of underscores.
pub open spec fn dashed(key: Seq<char>) -> Seq<char> {
    Seq::new(
        key.len(),
        |i: int|
            if key[i] == '_' {
                '-'
            } else {
                key[i]
            },
    )
}

/// The command line flag of a key.
pub open spec fn flag(key: Seq<char>) -> Seq<char> {
    "--"@ + dashed(key)
}

/// The command line flag of a key.
pub fn to_kebab_flag(key: &str) -> (r: String)
    ensures
        r@ == flag(key@),
{
    let v = chars_of(key);
    let mut s = "--".to_owned();
    assert(s@ =~= "--"@ + dashed(key@).take(0));
    for i in 0..v.len()
        invariant
            v@ == key@,
            s@ == "--"@ + dashed(key@).take(i as int),
    {
        let c = v[i];
        s.push(if c == '_' {
            '-'
        } else {
            c
        });
        assert(s@ =~= "--"@ + dashed(key@).take(i + 1));
    }
    assert(s@ =~= flag(key@));
    s
}

// ---------------------------------------------------------------------
// Overrides
// ---------------------------------------------------------------------

/// What is wrong with an override.
#[derive(Debug, Clone, Copy, PartialEq, Eq, Structural)]
pub enum ArgFault {
    MissingDot,
    EmptyVariant,
    MissingEquals,
    EmptyKey,
}

/// An override that cannot be read.
#[derive(Debug, Clone, PartialEq, Eq)]
pub struct VariantArgError {
    pub entry: String,
    pub fault: ArgFault,
}

/// The text of an error about an override.
pub open spec fn arg_fault_text(entry: Seq<char>, fault: ArgFault) -> Seq<char> {
    "malformed --variant-arg '"@ + entry + (match fault {
        ArgFault::MissingDot => "': expected '<variant>.<key>=<value>' (missing '.')"@,
        ArgFault::EmptyVariant => "': variant name (before the first '.') is empty"@,
        ArgFault::MissingEquals => "': expected '<variant>.<key>=<value>' (missing '=')"@,
        ArgFault::EmptyKey => "': key (between '.' and '=') is empty"@,
    })
}

impl VariantArgError {
    /// The text of the error.
    pub fn message(&self) -> (r: String)
        ensures
            r@ == arg_fault_text(self.entry@, self.fault),
    {
        let mut s = "malformed --variant-arg '".to_owned();
        s.append(self.entry.as_str());
        s.append(match self.fault {
            ArgFault::MissingDot => "': expected '<variant>.<key>=<value>' (missing '.')",
            ArgFault::EmptyVariant => "': variant name (before the first '.') is empty",
            ArgFault::MissingEquals => "': expected '<variant>.<key>=<value>' (missing '=')",
            ArgFault::EmptyKey => "': key (between '.' and '=') is empty",
        });
        s
    }
}

/// Where `c` first occurs.
pub open spec fn first_at(s: Seq<char>, c: char) -> Option<int>
    decreases s.len(),
{
    if s.len() == 0 {
        None
    } else if s[0] == c {
        Some(0)
    } else {
        match first_at(s.drop_first(), c) {
            Some(i) => Some(i + 1),
            None => None,
        }
    }
}

/// The text before and the text after the first `c`.
pub open spec fn split_at_first(s: Seq<char>, c: char) -> Option<(Seq<char>, Seq<char>)> {
    match first_at(s, c) {
        Some(i) => Some((s.take(i), s.skip(i + 1))),
        None => None,
    }
}

/// An override: for the variants that the selector names, `key` has the value `value`.
pub struct OverrideView {
    pub selector: Seq<char>,
    pub key: Seq<char>,
    pub value: ValueView,
}

/// What an override says: the selector stands before the first dot, the key between it
/// and the first equals sign that follows, the value behind that.
pub open spec fn override_of(entry: Seq<char>) -> Result<OverrideView, ArgFault> {
    match split_at_first(entry, '.') {
        None => Err(ArgFault::MissingDot),
        Some((selector, rest)) => if selector.len() == 0 {
            Err(ArgFault::EmptyVariant)
        } else {
            match split_at_first(rest, '=') {
                None => Err(ArgFault::MissingEquals),
                Some((key, value)) => if key.len() == 0 {
                    Err(ArgFault::EmptyKey)
                } else {
                    Ok(OverrideView { selector, key, value: ValueView::Text(value) })
                },
            }
        },
    }
}

/// An override.
#[derive(Debug, PartialEq, Eq)]
pub struct VariantArg {
    pub selector: String,
    pub key: String,
    pub value: TomlValue,
}

impl VariantArg {
    pub open spec fn view(&self) -> OverrideView {
        OverrideView { selector: self.selector@, key: self.key@, value: self.value@ }
    }
}

fn split_once(s: &Vec<char>, from: usize, c: char) -> (r: Option<usize>)
    requires
        from <= s.len(),
    ensures
        match r {
            Some(i) => from <= i < s.len() && first_at(s@.skip(from as int), c) == Some(i - from),
            None => first_at(s@.skip(from as int), c) is None,
        },
    decreases s.len() - from,
{
    if from == s.len() {
        return None;
    }
    proof {
        assert(s@.skip(from as int).drop_first() =~= s@.skip(from + 1));
        assert(s@.skip(from as int)[0] == s@[from as int]);
    }
    if s[from] == c {
        Some(from)
    } else {
        split_once(s, from + 1, c)
    }
}

fn part(s: &Vec<char>, from: usize, to: usize) -> (r: String)
    requires
        from <= to <= s.len(),
    ensures
        r@ == s@.subrange(from as int, to as int),
{
    let mut r = String::new();
    for i in from..to
        invariant
            from <= to <= s.len(),
            r@ == s@.subrange(from as int, i as int),
    {
        r.push(s[i]);
        assert(r@ =~= s@.subrange(from as int, i + 1));
    }
    r
}

/// Reads one override.
pub fn parse_variant_arg(entry: &str) -> (r: Result<VariantArg, VariantArgError>)
    ensures
        match override_of(entry@) {
            Ok(o) => r is Ok && r->Ok_0@ == o,
            Err(fault) => r is Err && r->Err_0.fault == fault && r->Err_0.entry@ == entry@,
        },
{
    let s = chars_of(entry);
    assert(s@.skip(0) =~= s@);
    let dot: usize = match split_once(&s, 0, '.') {
        Some(i) => i,
        None => return Err(VariantArgError { entry: entry.to_owned(), fault: ArgFault::MissingDot }),
    };
    if dot == 0 {
        return Err(VariantArgError { entry: entry.to_owned(), fault: ArgFault::EmptyVariant });
    }
    let ghost rest = s@.skip(dot + 1);
    let eq: usize = match split_once(&s, dot + 1, '=') {
        Some(i) => i,
        None => return Err(
            VariantArgError { entry: entry.to_owned(), fault: ArgFault::MissingEquals },
        ),
    };
    if eq == dot + 1 {
        return Err(VariantArgError { entry: entry.to_owned(), fault: ArgFault::EmptyKey });
    }
    let arg = VariantArg {
        selector: part(&s, 0, dot),
        key: part(&s, dot + 1, eq),
        value: TomlValue::Text(part(&s, eq + 1, s.len())),
    };
    proof {
        assert(arg.selector@ =~= s@.take(dot as int));
        assert(arg.key@ =~= rest.take(eq - dot - 1));
        assert(s@.subrange(eq + 1, s@.len() as int) =~= rest.skip(eq - dot));
    }
    Ok(arg)
}

/// What the overrides say, in order; the first that cannot be read is the error.
pub open spec fn overrides_of(raw: Seq<Seq<char>>) -> Result<Seq<OverrideView>, (Seq<char>, ArgFault)>
    decreases raw.len(),
{
    if raw.len() == 0 {
        Ok(Seq::empty())
    } else {
        match overrides_of(raw.drop_last()) {
            Err(e) => Err(e),
            Ok(v) => match override_of(raw.last()) {
                Ok(o) => Ok(v.push(o)),
                Err(fault) => Err((raw.last(), fault)),
            },
        }
    }
}

proof fn overrides_error_stays(raw: Seq<Seq<char>>, n: int)
    requires
        0 <= n <= raw.len(),
        overrides_of(raw.take(n)) is Err,
    ensures
        overrides_of(raw) == overrides_of(raw.take(n)),
    decreases raw.len(),
{
    if n < raw.len() {
        assert(raw.drop_last().take(n) =~= raw.take(n));
        overrides_error_stays(raw.drop_last(), n);
    } else {
        assert(raw.take(n) =~= raw);
    }
}

/// The overrides.
pub open spec fn arg_views(args: Seq<VariantArg>) -> Seq<OverrideView> {
    Seq::new(args.len(), |i: int| args[i]@)
}

/// Reads the overrides in the order in which they were given.
pub fn parse_variant_args(raw: &[String]) -> (r: Result<Vec<VariantArg>, VariantArgError>)
    ensures
        match overrides_of(texts(raw@)) {
            Ok(views) => r is Ok && arg_views(r->Ok_0@) == views,
            Err((entry, fault)) => r is Err && r->Err_0.entry@ == entry && r->Err_0.fault == fault,
        },
{
    let ghost t = texts(raw@);
    let mut out: Vec<VariantArg> = Vec::new();
    assert(arg_views(out@) =~= Seq::empty());
    for i in 0..raw.len()
        invariant
            t == texts(raw@),
            overrides_of(t.take(i as int)) == Ok::<Seq<OverrideView>, (Seq<char>, ArgFault)>(
                arg_views(out@),
            ),
    {
        proof {
            assert(t.take(i + 1).drop_last() =~= t.take(i as int));
            assert(t.take(i + 1).last() == raw@[i as int]@);
        }
        match parse_variant_arg(raw[i].as_str()) {
            Ok(arg) => {
                let ghost before = out@;
                out.push(arg);
                assert(arg_views(out@) =~= arg_views(before).push(arg@));
            },
            Err(e) => {
                proof {
                    overrides_error_stays(t, i + 1);
                }
                return Err(e);
            },
        }
    }
    assert(t.take(t.len() as int) =~= t);
    Ok(out)
}

/// By selector, the values that the overrides give to keys; a later override wins over
/// an earlier one.
pub open spec fn grouped(views: Seq<OverrideView>) -> Map<Seq<char>, TableView>
    decreases views.len(),
{
    if views.len() == 0 {
        Map::empty()
    } else {
        let before = grouped(views.drop_last());
        let o = views.last();
        let table = if before.contains_key(o.selector) {
            before[o.selector]
        } else {
            Map::empty()
        };
        before.insert(o.selector, table.insert(o.key, o.value))
    }
}

/// What the tables hold, by name.
pub open spec fn tables_view(m: NameMap<Table>) -> Map<Seq<char>, TableView> {
    m@.map_values(|t: Table| table_view(t))
}

/// Reads the overrides and groups them by the variant that they name.
pub fn parse_variant_arg_overrides(raw: &[String]) -> (r: Result<NameMap<Table>, VariantArgError>)
    ensures
        match overrides_of(texts(raw@)) {
            Ok(views) => r is Ok && tables_view(r->Ok_0) == grouped(views),
            Err((entry, fault)) => r is Err && r->Err_0.entry@ == entry && r->Err_0.fault == fault,
        },
{
    let args = match parse_variant_args(raw) {
        Ok(v) => v,
        Err(e) => return Err(e),
    };
    let ghost views = overrides_of(texts(raw@))->Ok_0;
    let mut out: NameMap<Table> = NameMap::new();
    assert(tables_view(out) =~= grouped(views.take(0)));
    for i in 0..args.len()
        invariant
            views == arg_views(args@),
            tables_view(out) == grouped(views.take(i as int)),
    {
        let arg = &args[i];
        let ghost before = grouped(views.take(i as int));
        let ghost o = views[i as int];
        proof {
            assert(args@[i as int]@ == o);
            assert(views.take(i + 1).drop_last() =~= views.take(i as int));
            assert(views.take(i + 1).last() == o);
        }
        let ghost out_before = out@;
        let mut table = match out.remove(arg.selector.as_str()) {
            Some(t) => t,
            None => Table::new(),
        };
        let ghost table_before = table_view(table);
        proof {
            if before.contains_key(o.selector) {
                assert(tables_view_at(out_before, o.selector) == table_before);
                assert(before[o.selector] == table_before);
            } else {
                assert(table_before =~= Map::empty());
            }
        }
        table.insert(arg.key.clone(), arg.value.clone());
        assert(table_view(table) =~= table_before.insert(o.key, o.value));
        let ghost now = table_view(table);
        out.insert(arg.selector.clone(), table);
        assert(tables_view(out) =~= before.insert(o.selector, now));
    }
    assert(views.take(views.len() as int) =~= views);
    Ok(out)
}

spec fn tables_view_at(m: Map<Seq<char>, Table>, key: Seq<char>) -> TableView {
    table_view(m[key])
}

/// The last override of a key wins.
pub proof fn last_override_wins(views: Seq<OverrideView>, i: int)
    requires
        0 <= i < views.len(),
        forall|j: int|
            i < j < views.len() ==> (#[trigger] views[j]).selector != views[i].selector || views[j].key
                != views[i].key,
    ensures
        grouped(views).contains_key(views[i].selector),
        grouped(views)[views[i].selector].contains_key(views[i].key),
        grouped(views)[views[i].selector][views[i].key] == views[i].value,
    decreases views.len(),
{
    let t = views.drop_last();
    if i < t.len() {
        assert forall|j: int| i < j < t.len() implies (#[trigger] t[j]).selector != t[i].selector || t[j].key
            != t[i].key by {
            assert(t[j] == views[j]);
        }
        last_override_wins(t, i);
        assert(views[views.len() - 1] == views.last());
    }
}

// ---------------------------------------------------------------------
// Selectors
// ---------------------------------------------------------------------

/// The text matches the pattern, in which `*` stands for any text and `?` for any one
/// character.
pub open spec fn glob(pattern: Seq<char>, text: Seq<char>) -> bool
    decreases pattern.len(), text.len(),
{
    if pattern.len() == 0 {
        text.len() == 0
    } else if pattern[0] == '*' {
        glob(pattern.drop_first(), text) || (text.len() > 0 && glob(pattern, text.drop_first()))
    } else {
        text.len() > 0 && (pattern[0] == '?' || pattern[0] == text[0]) && glob(
            pattern.drop_first(),
            text.drop_first(),
        )
    }
}

/// Whether the text matches the pattern.
pub fn glob_matches(pattern: &str, text: &str) -> (r: bool)
    ensures
        r == glob(pattern@, text@),
{
    let p = chars_of(pattern);
    let t = chars_of(text);
    let n: usize = t.len();
    // row[j] tells whether what is left of the pattern matches the text from j on
    let mut row: Vec<bool> = Vec::new();
    for j in 0..n
        invariant
            row@.len() == j,
            n == t@.len(),
            forall|k: int| 0 <= k < j ==> row@[k] == glob(p@.skip(p@.len() as int), t@.skip(k)),
    {
        row.push(false);
    }
    row.push(true);
    let mut i: usize = p.len();
    while i > 0
        invariant
            i <= p.len(),
            n == t@.len(),
            row@.len() == n + 1,
            forall|k: int| 0 <= k <= n ==> row@[k] == glob(p@.skip(i as int), t@.skip(k)),
        decreases i,
    {
        let c = p[i - 1];
        let ghost here = p@.skip(i - 1);
        proof {
            assert(here[0] == c);
            assert(here.drop_first() =~= p@.skip(i as int));
        }
        let mut next: Vec<bool> = Vec::new();
        let mut j: usize = row.len();
        while j > 0
            invariant
                0 < i <= p.len(),
                n == t@.len(),
                j <= n + 1,
                here == p@.skip(i - 1),
                here[0] == c,
                here.drop_first() == p@.skip(i as int),
                row@.len() == n + 1,
                forall|k: int| 0 <= k <= n ==> row@[k] == glob(p@.skip(i as int), t@.skip(k)),
                next@.len() == n + 1 - j,
                forall|k: int| j <= k <= n ==> next@[k - j] == glob(here, t@.skip(k)),
            decreases j,
        {
            j = j - 1;
            let ghost rest = t@.skip(j as int);
            proof {
                if j < n {
                    assert(rest.drop_first() =~= t@.skip(j + 1));
                    assert(rest[0] == t@[j as int]);
                }
            }
            let hit: bool = if c == '*' {
                row[j] || (j < n && next[0])
            } else {
                j < n && (c == '?' || c == t[j]) && row[j + 1]
            };
            assert(hit == glob(here, rest));
            let ghost before = next@;
            next.insert(0, hit);
            assert forall|k: int| j <= k <= n implies next@[k - j] == glob(here, t@.skip(k)) by {
                if k > j {
                    assert(next@[k - j] == before[k - j - 1]);
                }
            }
        }
        row = next;
        i = i - 1;
    }
    assert(p@.skip(0) =~= pattern@);
    assert(t@.skip(0) =~= text@);
    row[0]
}

/// A pattern without wildcards matches only itself.
pub proof fn plain_selector_is_literal(pattern: Seq<char>, text: Seq<char>)
    requires
        !pattern.contains('*'),
        !pattern.contains('?'),
    ensures
        glob(pattern, text) == (pattern == text),
    decreases pattern.len(),
{
    if pattern.len() == 0 {
        assert(text.len() == 0 ==> pattern =~= text);
    } else {
        assert(pattern.contains(pattern[0]));
        let p = pattern.drop_first();
        assert forall|c: char| p.contains(c) implies pattern.contains(c) by {
            let i = choose|i: int| 0 <= i < p.len() && p[i] == c;
            assert(pattern[i + 1] == c);
        }
        if text.len() > 0 {
            plain_selector_is_literal(p, text.drop_first());
            if p == text.drop_first() && pattern[0] == text[0] {
                assert(pattern =~= seq![pattern[0]] + p);
                assert(text =~= seq![text[0]] + text.drop_first());
            }
        }
    }
}

/// A lone `*` matches every text.
pub proof fn star_matches_everything(text: Seq<char>)
    ensures
        glob(seq!['*'], text),
    decreases text.len(),
{
    let p = seq!['*'];
    assert(p.drop_first() =~= Seq::empty());
    assert(glob(p.drop_first(), text) == (text.len() == 0));
    if text.len() > 0 {
        star_matches_everything(text.drop_first());
    }
}

/// What a selector of one character matches: a star every text, a question mark every single
/// character, and any other character itself. The empty selector matches the empty text.
pub proof fn single_selectors(c: char, text: Seq<char>)
    ensures
        glob(Seq::empty(), text) <==> text.len() == 0,
        glob(seq![c], text) <==> c == '*' || (text.len() == 1 && (c == '?' || text[0] == c)),
{
    let p = seq![c];
    assert(p.drop_first() =~= Seq::empty());
    if c == '*' {
        star_matches_everything(text);
    } else if text.len() > 0 {
        assert(glob(p.drop_first(), text.drop_first()) <==> text.drop_first().len() == 0);
    }
}

/// Selectors side by side match texts side by side, and nothing else: `p` followed by `q`
/// matches a text just where the text can be cut so that `p` matches the first part and
/// `q` the rest.
pub proof fn selectors_side_by_side(p: Seq<char>, q: Seq<char>, text: Seq<char>)
    ensures
        glob(p + q, text) <==> exists|k: int|
            0 <= k <= text.len() && #[trigger] glob(p, text.take(k)) && glob(q, text.skip(k)),
    decreases p.len(), text.len(),
{
    if p.len() == 0 {
        assert(p + q =~= q);
        assert(text.take(0) =~= Seq::empty());
        assert(text.skip(0) =~= text);
        assert(glob(p, text.take(0)));
        assert forall|k: int| 0 <= k <= text.len() && #[trigger] glob(p, text.take(k)) implies k == 0 by {}
        if glob(p + q, text) {
            assert(glob(p, text.take(0)) && glob(q, text.skip(0)));
        }
    } else {
        let rest = p.drop_first();
        assert((p + q).drop_first() =~= rest + q);
        assert((p + q)[0] == p[0]);
        if p[0] == '*' {
            selectors_side_by_side(rest, q, text);
            if text.len() > 0 {
                selectors_side_by_side(p, q, text.drop_first());
            }
            if glob(p + q, text) {
                if glob(rest + q, text) {
                    let k = choose|k: int|
                        0 <= k <= text.len() && #[trigger] glob(rest, text.take(k)) && glob(q, text.skip(k));
                    assert(glob(p, text.take(k)));
                } else {
                    let t = text.drop_first();
                    let k = choose|k: int|
                        0 <= k <= t.len() && #[trigger] glob(p, t.take(k)) && glob(q, t.skip(k));
                    assert(text.take(k + 1).drop_first() =~= t.take(k));
                    assert(text.skip(k + 1) =~= t.skip(k));
                    assert(glob(p, text.take(k + 1)));
                }
            }
            if exists|k: int| 0 <= k <= text.len() && #[trigger] glob(p, text.take(k)) && glob(q, text.skip(k)) {
                let k = choose|k: int|
                    0 <= k <= text.len() && #[trigger] glob(p, text.take(k)) && glob(q, text.skip(k));
                if glob(rest, text.take(k)) {
                    assert(glob(rest + q, text));
                } else {
                    let t = text.drop_first();
                    assert(k > 0);
                    assert(text.take(k).drop_first() =~= t.take(k - 1));
                    assert(text.skip(k) =~= t.skip(k - 1));
                    assert(glob(p, t.take(k - 1)));
                }
            }
        } else if text.len() > 0 {
            let t = text.drop_first();
            selectors_side_by_side(rest, q, t);
            if glob(p + q, text) {
                let k = choose|k: int| 0 <= k <= t.len() && #[trigger] glob(rest, t.take(k)) && glob(q, t.skip(k));
                assert(text.take(k + 1).drop_first() =~= t.take(k));
                assert(text.take(k + 1)[0] == text[0]);
                assert(text.skip(k + 1) =~= t.skip(k));
                assert(glob(p, text.take(k + 1)));
            }
            if exists|k: int| 0 <= k <= text.len() && #[trigger] glob(p, text.take(k)) && glob(q, text.skip(k)) {
                let k = choose|k: int|
                    0 <= k <= text.len() && #[trigger] glob(p, text.take(k)) && glob(q, text.skip(k));
                assert(k > 0);
                assert(text.take(k).drop_first() =~= t.take(k - 1));
                assert(text.take(k)[0] == text[0]);
                assert(text.skip(k) =~= t.skip(k - 1));
                assert(glob(rest, t.take(k - 1)));
            }
        } else {
            assert forall|k: int| 0 <= k <= text.len() implies !#[trigger] glob(p, text.take(k)) by {}
        }
    }
}

/// A star stands for any text: where `p` matches `a` and `q` matches `b`, `p` followed by a
/// star and `q` matches `a` followed by any text and `b`.
pub proof fn star_stands_for_any_text(
    p: Seq<char>,
    q: Seq<char>,
    a: Seq<char>,
    between: Seq<char>,
    b: Seq<char>,
)
    requires
        glob(p, a),
        glob(q, b),
    ensures
        glob(p + seq!['*'] + q, a + between + b),
{
    let text = a + between + b;
    single_selectors('*', between);
    let tail = between + b;
    assert(tail.take(between.len() as int) =~= between);
    assert(tail.skip(between.len() as int) =~= b);
    selectors_side_by_side(seq!['*'], q, tail);
    assert(glob(seq!['*'], tail.take(between.len() as int)) && glob(q, tail.skip(between.len() as int)));
    assert(text.take(a.len() as int) =~= a);
    assert(text.skip(a.len() as int) =~= tail);
    selectors_side_by_side(p, seq!['*'] + q, text);
    assert(glob(p, text.take(a.len() as int)) && glob(seq!['*'] + q, text.skip(a.len() as int)));
    assert(p + seq!['*'] + q =~= p + (seq!['*'] + q));
}

/// The value that the overrides give to a key, and the selector that it comes from.
pub struct ResolvedView {
    pub value: ValueView,
    pub selector: Seq<char>,
}

/// What the overrides give to the keys of one variant: those whose selector matches its
/// name, a later one winning over an earlier one.
pub open spec fn resolved_args(views: Seq<OverrideView>, name: Seq<char>) -> Map<Seq<char>, ResolvedView>
    decreases views.len(),
{
    if views.len() == 0 {
        Map::empty()
    } else {
        let before = resolved_args(views.drop_last(), name);
        let o = views.last();
        if glob(o.selector, name) {
            before.insert(o.key, ResolvedView { value: o.value, selector: o.selector })
        } else {
            before
        }
    }
}

/// A value with the selector that it comes from.
#[derive(Debug, PartialEq, Eq)]
pub struct ResolvedArg {
    pub value: TomlValue,
    pub selector: String,
}

impl ResolvedArg {
    pub open spec fn view(&self) -> ResolvedView {
        ResolvedView { value: self.value@, selector: self.selector@ }
    }
}

/// What the resolved overrides are.
pub open spec fn resolved_view(m: NameMap<ResolvedArg>) -> Map<Seq<char>, ResolvedView> {
    m@.map_values(|a: ResolvedArg| a@)
}

/// What the overrides give to the keys of the variant `name`.
pub fn resolve_for_variant(args: &[VariantArg], name: &str) -> (r: NameMap<ResolvedArg>)
    ensures
        resolved_view(r) == resolved_args(arg_views(args@), name@),
{
    let ghost views = arg_views(args@);
    let mut out: NameMap<ResolvedArg> = NameMap::new();
    assert(resolved_view(out) =~= resolved_args(views.take(0), name@));
    for i in 0..args.len()
        invariant
            views == arg_views(args@),
            resolved_view(out) == resolved_args(views.take(i as int), name@),
    {
        let arg = &args[i];
        proof {
            assert(views.take(i + 1).drop_last() =~= views.take(i as int));
            assert(views.take(i + 1).last() == arg@);
        }
        if glob_matches(arg.selector.as_str(), name) {
            let ghost before = resolved_view(out);
            let value = ResolvedArg { value: arg.value.clone(), selector: arg.selector.clone() };
            let ghost view = value@;
            out.insert(arg.key.clone(), value);
            assert(resolved_view(out) =~= before.insert(arg@.key, view));
        }
    }
    assert(views.take(views.len() as int) =~= views);
    out
}

/// The last override whose selector matches gives a key its value.
pub proof fn last_matching_override_wins(views: Seq<OverrideView>, name: Seq<char>, i: int)
    requires
        0 <= i < views.len(),
        glob(views[i].selector, name),
        forall|j: int|
            i < j < views.len() ==> (#[trigger] views[j]).key != views[i].key || !glob(
                views[j].selector,
                name,
            ),
    ensures
        resolved_args(views, name).contains_key(views[i].key),
        resolved_args(views, name)[views[i].key] == (ResolvedView {
            value: views[i].value,
            selector: views[i].selector,
        }),
    decreases views.len(),
{
    let t = views.drop_last();
    if i < t.len() {
        assert forall|j: int| i < j < t.len() implies (#[trigger] t[j]).key != t[i].key || !glob(
            t[j].selector,
            name,
        ) by {
            assert(t[j] == views[j]);
        }
        last_matching_override_wins(t, name, i);
        assert(views[views.len() - 1] == views.last());
    }
}

/// The values without the selectors that they come from.
pub open spec fn values_only(m: Map<Seq<char>, ResolvedView>) -> TableView {
    m.map_values(|a: ResolvedView| a.value)
}

/// The values without the selectors that they come from.
pub fn drop_selector_provenance(resolved: &NameMap<ResolvedArg>) -> (r: Table)
    ensures
        table_view(r) == values_only(resolved_view(*resolved)),
{
    let keys = resolved.keys();
    let ghost t = texts(keys@);
    let ghost goal = values_only(resolved_view(*resolved));
    let mut out = Table::new();
    assert(table_view(out) =~= goal.restrict(t.take(0).to_set())) by {
        assert(t.take(0) =~= Seq::empty());
    }
    for i in 0..keys.len()
        invariant
            t == texts(keys@),
            t.to_set() == resolved@.dom(),
            goal == values_only(resolved_view(*resolved)),
            table_view(out) == goal.restrict(t.take(i as int).to_set()),
    {
        let key = keys[i].as_str();
        let ghost before = table_view(out);
        proof {
            assert(t[i as int] == key@);
            assert(t.to_set().contains(t[i as int]));
            assert(t.take(i + 1) =~= t.take(i as int).push(t[i as int]));
            crate::names::to_set_push(t.take(i as int), t[i as int]);
        }
        match resolved.get(key) {
            Some(a) => {
                let value = a.value.clone();
                let ghost view = value@;
                assert(view == goal[key@]);
                out.insert(keys[i].clone(), value);
                proof {
                    assert(table_view(out) =~= before.insert(key@, view));
                    assert(table_view(out) =~= goal.restrict(t.take(i + 1).to_set()));
                }
            },
            None => {
                assert(false);
            },
        }
    }
    proof {
        assert(t.take(t.len() as int) =~= t);
        assert(goal.restrict(t.to_set()) =~= goal);
    }
    out
}

// ---------------------------------------------------------------------
// Specific arguments
// ---------------------------------------------------------------------

/// The entries of both tables; where both have a key, that of the overrides.
pub open spec fn merged(toml_specific: Option<TableView>, overrides: Option<TableView>) -> TableView {
    let base = match toml_specific {
        Some(t) => t,
        None => Map::empty(),
    };
    match overrides {
        Some(o) => base.union_prefer_right(o),
        None => base,
    }
}

/// What an optional table holds.
pub open spec fn table_ref_view(t: Option<&Table>) -> Option<TableView> {
    match t {
        Some(t) => Some(table_view(*t)),
        None => None,
    }
}

/// Merges the arguments of the config with the overrides; the overrides win.
pub fn merge_specific_with_overrides(
    toml_specific: Option<&Table>,
    cli_overrides: Option<&Table>,
) -> (r: Table)
    ensures
        table_view(r) == merged(table_ref_view(toml_specific), table_ref_view(cli_overrides)),
{
    let mut out = match cli_overrides {
        Some(o) => copy_table(o),
        None => Table::new(),
    };
    proof {
        if cli_overrides is None {
            assert(table_view(out) =~= Map::empty());
        }
    }
    let ghost before = table_view(out);
    match toml_specific {
        Some(t) => {
            crate::toml_value::merge_table_keys(&mut out, t);
        },
        None => {},
    }
    assert(table_view(out) =~= merged(table_ref_view(toml_specific), table_ref_view(cli_overrides)));
    out
}

/// Where the value of an argument comes from.
#[derive(Debug, Clone, Copy, PartialEq, Eq, Structural)]
pub enum SpecificArgProvenance {
    /// From the config.
    Toml,
    /// From the command line.
    Cli,
}

/// Where the value of `key` comes from.
pub open spec fn provenance(overrides: Option<TableView>, key: Seq<char>) -> SpecificArgProvenance {
    if overrides is Some && overrides->0.contains_key(key) {
        SpecificArgProvenance::Cli
    } else {
        SpecificArgProvenance::Toml
    }
}

/// The arguments in the order of their keys, each with its value as text and where the
/// value comes from.
pub fn specific_arg_provenance(
    toml_specific: Option<&Table>,
    cli_overrides: Option<&Table>,
) -> (r: Vec<(String, String, SpecificArgProvenance)>)
    ensures
        ({
            let all = merged(table_ref_view(toml_specific), table_ref_view(cli_overrides));
            let keys = listing(all.dom());
            &&& r@.len() == keys.len()
            &&& forall|i: int|
                0 <= i < r@.len() ==> {
                    &&& (#[trigger] r@[i]).0@ == keys[i]
                    &&& r@[i].1@ == all[keys[i]].text()
                    &&& r@[i].2 == provenance(table_ref_view(cli_overrides), keys[i])
                }
        }),
{
    let merged_table = merge_specific_with_overrides(toml_specific, cli_overrides);
    let keys = merged_table.keys();
    let ghost all = table_view(merged_table);
    let ghost names = texts(keys@);
    assert(all.dom() =~= merged_table@.dom());
    let mut out: Vec<(String, String, SpecificArgProvenance)> = Vec::new();
    for i in 0..keys.len()
        invariant
            names == texts(keys@),
            names.to_set() == merged_table@.dom(),
            all == table_view(merged_table),
            out@.len() == i,
            forall|j: int|
                0 <= j < i ==> {
                    &&& (#[trigger] out@[j]).0@ == names[j]
                    &&& out@[j].1@ == all[names[j]].text()
                    &&& out@[j].2 == provenance(table_ref_view(cli_overrides), names[j])
                },
    {
        let key = keys[i].as_str();
        proof {
            assert(names[i as int] == key@);
            assert(names.to_set().contains(names[i as int]));
        }
        let tag = match cli_overrides {
            Some(o) => if o.contains_key(key) {
                SpecificArgProvenance::Cli
            } else {
                SpecificArgProvenance::Toml
            },
            None => SpecificArgProvenance::Toml,
        };
        match merged_table.get(key) {
            Some(v) => {
                out.push((keys[i].clone(), toml_value_to_string(v), tag));
            },
            None => {
                assert(false);
            },
        }
    }
    out
}

/// The origin of a value as the operator sees it.
pub open spec fn origin_text(resolved: Map<Seq<char>, ResolvedView>, key: Seq<char>) -> Seq<char> {
    if resolved.contains_key(key) {
        " (cli: "@ + resolved[key].selector + ")"@
    } else {
        " (toml)"@
    }
}

/// The arguments of a spawn as the operator sees them: key, value and origin, in the
/// order of the keys.
pub open spec fn specific_args_text(
    all: TableView,
    resolved: Map<Seq<char>, ResolvedView>,
    keys: Seq<Seq<char>>,
) -> Seq<char>
    decreases keys.len(),
{
    if keys.len() == 0 {
        Seq::empty()
    } else {
        let before = specific_args_text(all, resolved, keys.drop_last());
        let key = keys.last();
        let item = key + "="@ + all[key].text() + origin_text(resolved, key);
        if keys.len() == 1 {
            item
        } else {
            before + ", "@ + item
        }
    }
}

/// The arguments of a spawn as the operator sees them; empty where there are none.
pub fn render_specific_args(
    toml_specific: Option<&Table>,
    resolved: &NameMap<ResolvedArg>,
) -> (r: String)
    ensures
        ({
            let all = merged(
                table_ref_view(toml_specific),
                Some(values_only(resolved_view(*resolved))),
            );
            r@ == specific_args_text(all, resolved_view(*resolved), listing(all.dom()))
        }),
{
    let overrides = drop_selector_provenance(resolved);
    let rows = specific_arg_provenance(toml_specific, Some(&overrides));
    let ghost res = resolved_view(*resolved);
    let ghost all = merged(table_ref_view(toml_specific), Some(values_only(res)));
    let ghost keys = listing(all.dom());
    let mut s = String::new();
    assert(s@ =~= specific_args_text(all, res, keys.take(0)));
    for i in 0..rows.len()
        invariant
            rows@.len() == keys.len(),
            res == resolved_view(*resolved),
            forall|j: int|
                0 <= j < rows@.len() ==> {
                    &&& (#[trigger] rows@[j]).0@ == keys[j]
                    &&& rows@[j].1@ == all[keys[j]].text()
                },
            s@ == specific_args_text(all, res, keys.take(i as int)),
    {
        let key = rows[i].0.as_str();
        let ghost before = s@;
        if i > 0 {
            s.append(", ");
        }
        s.append(key);
        s.append("=");
        s.append(rows[i].1.as_str());
        match resolved.get(key) {
            Some(a) => {
                s.append(" (cli: ");
                s.append(a.selector.as_str());
                s.append(")");
            },
            None => {
                s.append(" (toml)");
            },
        }
        proof {
            assert(rows@[i as int].0@ == keys[i as int]);
            let next = keys.take(i + 1);
            assert(next.drop_last() =~= keys.take(i as int));
            assert(next.last() == key@);
            assert(s@ =~= specific_args_text(all, res, next));
        }
    }
    assert(keys.take(keys.len() as int) =~= keys);
    s
}

// ---------------------------------------------------------------------
// The command line of a variant
// ---------------------------------------------------------------------

/// The names with their hosts, separated by commas.
pub open spec fn peers_text(hosts: Map<Seq<char>, String>, names: Seq<Seq<char>>) -> Seq<char>
    decreases names.len(),
{
    if names.len() == 0 {
        Seq::empty()
    } else {
        let item = names.last() + "="@ + hosts[names.last()]@;
        if names.len() == 1 {
            item
        } else {
            peers_text(hosts, names.drop_last()) + ","@ + item
        }
    }
}

/// The value of the `--peers` argument: each name with its host, in the order of the
/// names.
pub fn format_peers_arg(peer_hosts: &NameMap<String>) -> (r: String)
    ensures
        r@ == peers_text(peer_hosts@, listing(peer_hosts@.dom())),
{
    let keys = peer_hosts.keys();
    let ghost names = texts(keys@);
    let mut s = String::new();
    assert(s@ =~= peers_text(peer_hosts@, names.take(0)));
    for i in 0..keys.len()
        invariant
            names == texts(keys@),
            names.to_set() == peer_hosts@.dom(),
            s@ == peers_text(peer_hosts@, names.take(i as int)),
    {
        let key = keys[i].as_str();
        proof {
            assert(names[i as int] == key@);
            assert(names.to_set().contains(names[i as int]));
        }
        if i > 0 {
            s.append(",");
        }
        s.append(key);
        s.append("=");
        match peer_hosts.get(key) {
            Some(host) => {
                s.append(host.as_str());
            },
            None => {
                assert(false);
            },
        }
        proof {
            let next = names.take(i + 1);
            assert(next.drop_last() =~= names.take(i as int));
            assert(next.last() == key@);
            assert(s@ =~= peers_text(peer_hosts@, next));
        }
    }
    assert(names.take(names.len() as int) =~= names);
    s
}

/// The keys that have a value of their own in each spawn.
pub open spec fn set_per_spawn(key: Seq<char>) -> bool {
    key == "qos"@ || key == "tick_rate_hz"@ || key == "values_per_tick"@ || key == "threading_modes"@
        || key == "recv_buffer_kb"@
}

/// The flags and values of the common arguments.
pub open spec fn common_args(
    t: TableView,
    keys: Seq<Seq<char>>,
    log_dir: Option<Seq<char>>,
) -> Seq<Seq<char>>
    decreases keys.len(),
{
    if keys.len() == 0 {
        Seq::empty()
    } else {
        let before = common_args(t, keys.drop_last(), log_dir);
        let key = keys.last();
        if set_per_spawn(key) {
            before
        } else {
            before.push(flag(key)).push(
                if key == "log_dir"@ && log_dir is Some {
                    log_dir->0
                } else {
                    t[key].text()
                },
            )
        }
    }
}

/// The log folder that takes the place of the variant's own, where the variant has none.
pub open spec fn added_log_dir(t: TableView, log_dir: Option<Seq<char>>) -> Seq<Seq<char>> {
    if log_dir is Some && !t.contains_key("log_dir"@) {
        seq!["--log-dir"@, log_dir->0]
    } else {
        Seq::empty()
    }
}

/// The flags and values of the specific arguments.
pub open spec fn specific_args(t: TableView, keys: Seq<Seq<char>>) -> Seq<Seq<char>>
    decreases keys.len(),
{
    if keys.len() == 0 {
        Seq::empty()
    } else {
        specific_args(t, keys.drop_last()).push(flag(keys.last())).push(t[keys.last()].text())
    }
}

/// What one spawn is started with besides the config.
#[derive(Debug, Clone, Copy)]
pub struct SpawnArgs<'a> {
    pub run: &'a str,
    pub runner_name: &'a str,
    pub launch_ts: &'a str,
    /// The log folder that takes the place of the variant's own.
    pub log_dir_override: Option<&'a str>,
    pub variant_name: &'a str,
    pub qos: u8,
    pub tick_rate_hz: u32,
    pub values_per_tick: u32,
    pub threading_mode: ThreadingMode,
    pub recv_buffer_kb: u32,
}

impl<'a> SpawnArgs<'a> {
    /// The log folder that takes the place of the variant's own.
    pub open spec fn log_dir(&self) -> Option<Seq<char>> {
        match self.log_dir_override {
            Some(s) => Some(s@),
            None => None,
        }
    }

    /// The arguments that the runner itself gives to each spawn.
    pub open spec fn runner_args(&self, peers: Seq<char>) -> Seq<Seq<char>> {
        seq![
            "--tick-rate-hz"@,
            decimal(self.tick_rate_hz as nat),
            "--values-per-tick"@,
            decimal(self.values_per_tick as nat),
            "--qos"@,
            decimal(self.qos as nat),
            "--threading-mode"@,
            self.threading_mode.word(),
            "--recv-buffer-kb"@,
            decimal(self.recv_buffer_kb as nat),
            "--launch-ts"@,
            self.launch_ts@,
            "--variant"@,
            self.variant_name@,
            "--runner"@,
            self.runner_name@,
            "--run"@,
            self.run@,
            "--peers"@,
            peers,
        ]
    }
}

/// The command line of a spawn: the common arguments in the order of their keys, the log
/// folder where it is not among them, what the runner gives, and behind a double dash the specific arguments, if there are any.
pub open spec fn variant_args(
    variant: VariantView,
    spawn: SpawnArgs<'_>,
    peers: Seq<char>,
    overrides: Option<TableView>,
) -> Seq<Seq<char>> {
    let specific = merged(variant.specific, overrides);
    common_args(variant.common, listing(variant.common.dom()), spawn.log_dir()) + added_log_dir(
        variant.common,
        spawn.log_dir(),
    ) + spawn.runner_args(peers) + (if specific == Map::<Seq<char>, ValueView>::empty() {
        Seq::empty()
    } else {
        seq!["--"@] + specific_args(specific, listing(specific.dom()))
    })
}

fn push_text(args: &mut Vec<String>, s: &str)
    ensures
        texts(final(args)@) == texts(old(args)@).push(s@),
{
    let ghost before = args@;
    args.push(s.to_owned());
    assert(texts(args@) =~= texts(before).push(s@));
}

fn is_set_per_spawn(key: &str) -> (r: bool)
    ensures
        r == set_per_spawn(key@),
{
    same(key, "qos") || same(key, "tick_rate_hz") || same(key, "values_per_tick") || same(
        key,
        "threading_modes",
    ) || same(key, "recv_buffer_kb")
}

fn push_common_args(args: &mut Vec<String>, common: &Table, log_dir: Option<&str>)
    ensures
        ({
            let t = table_view(*common);
            let dir = match log_dir {
                Some(s) => Some(s@),
                None => None,
            };
            texts(final(args)@) == texts(old(args)@) + (common_args(t, listing(t.dom()), dir)
                + added_log_dir(t, dir))
        }),
{
    let keys = common.keys();
    let ghost names = texts(keys@);
    let ghost t = table_view(*common);
    let ghost start = texts(args@);
    let ghost dir = match log_dir {
        Some(s) => Some(s@),
        None => None,
    };
    assert(t.dom() =~= common@.dom());
    assert(texts(args@) =~= start + common_args(t, names.take(0), dir));
    let n: usize = keys.len();
    for i in 0..n
        invariant
            n == keys@.len(),
            names == texts(keys@),
            names.to_set() == common@.dom(),
            t == table_view(*common),
            dir == (match log_dir {
                Some(s) => Some(s@),
                None => None,
            }),
            texts(args@) == start + common_args(t, names.take(i as int), dir),
    {
        let key = keys[i].as_str();
        proof {
            assert(names[i as int] == key@);
            assert(names.to_set().contains(names[i as int]));
            assert(names.take(i + 1).drop_last() =~= names.take(i as int));
            assert(names.take(i + 1).last() == key@);
        }
        if !is_set_per_spawn(key) {
            push_text(args, to_kebab_flag(key).as_str());
            let value: String = match common.get(key) {
                Some(v) => match log_dir {
                    Some(s) => if same(key, "log_dir") {
                        s.to_owned()
                    } else {
                        toml_value_to_string(v)
                    },
                    None => toml_value_to_string(v),
                },
                None => {
                    assert(false);
                    String::new()
                },
            };
            push_text(args, value.as_str());
        }
        assert(texts(args@) =~= start + common_args(t, names.take(i + 1), dir));
    }
    assert(names.take(names.len() as int) =~= names);
    match log_dir {
        Some(s) => if common.get("log_dir").is_none() {
            push_text(args, "--log-dir");
            push_text(args, s);
        },
        None => {},
    }
    assert(texts(args@) =~= start + (common_args(t, names, dir) + added_log_dir(t, dir)));
}

fn push_runner_args(args: &mut Vec<String>, spawn: &SpawnArgs<'_>, peers: &str)
    ensures
        texts(final(args)@) == texts(old(args)@) + spawn.runner_args(peers@),
{
    push_text(args, "--tick-rate-hz");
    push_text(args, decimal_u64(spawn.tick_rate_hz as u64).as_str());
    push_text(args, "--values-per-tick");
    push_text(args, decimal_u64(spawn.values_per_tick as u64).as_str());
    push_text(args, "--qos");
    push_text(args, decimal_u64(spawn.qos as u64).as_str());
    push_text(args, "--threading-mode");
    push_text(args, spawn.threading_mode.as_str());
    push_text(args, "--recv-buffer-kb");
    push_text(args, decimal_u64(spawn.recv_buffer_kb as u64).as_str());
    push_text(args, "--launch-ts");
    push_text(args, spawn.launch_ts);
    push_text(args, "--variant");
    push_text(args, spawn.variant_name);
    push_text(args, "--runner");
    push_text(args, spawn.runner_name);
    push_text(args, "--run");
    push_text(args, spawn.run);
    push_text(args, "--peers");
    push_text(args, peers);
    assert(texts(args@) =~= texts(old(args)@) + spawn.runner_args(peers@));
}

fn push_specific_args(args: &mut Vec<String>, specific: &Table)
    ensures
        texts(final(args)@) == texts(old(args)@) + specific_args(
            table_view(*specific),
            listing(table_view(*specific).dom()),
        ),
{
    let keys = specific.keys();
    let ghost names = texts(keys@);
    let ghost t = table_view(*specific);
    let ghost start = texts(args@);
    assert(t.dom() =~= specific@.dom());
    assert(texts(args@) =~= start + specific_args(t, names.take(0)));
    let n: usize = keys.len();
    for i in 0..n
        invariant
            n == keys@.len(),
            names == texts(keys@),
            names.to_set() == specific@.dom(),
            t == table_view(*specific),
            texts(args@) == start + specific_args(t, names.take(i as int)),
    {
        let key = keys[i].as_str();
        proof {
            assert(names[i as int] == key@);
            assert(names.to_set().contains(names[i as int]));
            assert(names.take(i + 1).drop_last() =~= names.take(i as int));
            assert(names.take(i + 1).last() == key@);
        }
        push_text(args, to_kebab_flag(key).as_str());
        match specific.get(key) {
            Some(v) => {
                push_text(args, toml_value_to_string(v).as_str());
            },
            None => {
                assert(false);
            },
        }
        assert(texts(args@) =~= start + specific_args(t, names.take(i + 1)));
    }
    assert(names.take(names.len() as int) =~= names);
}

/// The command line that a spawn of the variant is started with.
pub fn build_variant_args(
    variant: &VariantConfig,
    run: &str,
    runner_name: &str,
    launch_ts: &str,
    log_dir_override: Option<&str>,
    effective_variant_name: &str,
    effective_qos: u8,
    effective_tick_rate_hz: u32,
    effective_values_per_tick: u32,
    effective_threading_mode: ThreadingMode,
    effective_recv_buffer_kb: u32,
    peer_hosts: &NameMap<String>,
    cli_specific_overrides: Option<&Table>,
) -> (r: Vec<String>)
    ensures
        texts(r@) == variant_args(
            variant@,
            (SpawnArgs {
                run,
                runner_name,
                launch_ts,
                log_dir_override,
                variant_name: effective_variant_name,
                qos: effective_qos,
                tick_rate_hz: effective_tick_rate_hz,
                values_per_tick: effective_values_per_tick,
                threading_mode: effective_threading_mode,
                recv_buffer_kb: effective_recv_buffer_kb,
            }),
            peers_text(peer_hosts@, listing(peer_hosts@.dom())),
            table_ref_view(cli_specific_overrides),
        ),
{
    let spawn = SpawnArgs {
        run,
        runner_name,
        launch_ts,
        log_dir_override,
        variant_name: effective_variant_name,
        qos: effective_qos,
        tick_rate_hz: effective_tick_rate_hz,
        values_per_tick: effective_values_per_tick,
        threading_mode: effective_threading_mode,
        recv_buffer_kb: effective_recv_buffer_kb,
    };
    let mut args: Vec<String> = Vec::new();
    assert(texts(args@) =~= Seq::empty());
    push_common_args(&mut args, &variant.common, spawn.log_dir_override);
    let ghost common = common_args(
        variant@.common,
        listing(variant@.common.dom()),
        spawn.log_dir(),
    ) + added_log_dir(variant@.common, spawn.log_dir());
    assert(texts(args@) =~= common);
    let peers = format_peers_arg(peer_hosts);
    push_runner_args(&mut args, &spawn, peers.as_str());
    let own: Option<&Table> = match &variant.specific {
        Some(t) => Some(t),
        None => None,
    };
    assert(table_ref_view(own) == variant@.specific);
    let specific = merge_specific_with_overrides(own, cli_specific_overrides);
    let ghost all = table_view(specific);
    if !specific.is_empty() {
        proof {
            if all == Map::<Seq<char>, ValueView>::empty() {
                assert(all.dom() =~= specific@.dom());
                assert(specific@ =~= Map::empty());
            }
        }
        push_text(&mut args, "--");
        push_specific_args(&mut args, &specific);
        assert(texts(args@) =~= common + spawn.runner_args(peers@) + (seq!["--"@] + specific_args(
            all,
            listing(all.dom()),
        )));
    } else {
        assert(all =~= Map::empty());
        assert(texts(args@) =~= common + spawn.runner_args(peers@) + Seq::<Seq<char>>::empty());
    }
    args
}

/// Where an override sets a key its value is the one in effect, and keys that no
/// override sets keep the value of the config.
pub proof fn overrides_win(toml_specific: Option<TableView>, overrides: TableView, key: Seq<char>)
    ensures
        overrides.contains_key(key) ==> lookup(merged(toml_specific, Some(overrides)), key) == lookup(
            overrides,
            key,
        ),
        !overrides.contains_key(key) && toml_specific is Some ==> lookup(
            merged(toml_specific, Some(overrides)),
            key,
        ) == lookup(toml_specific->0, key),
{
}

/// The log folder stands among the common arguments behind its flag.
proof fn own_log_dir_is_replaced(t: TableView, keys: Seq<Seq<char>>, dir: Seq<char>) -> (k: int)
    requires
        keys.contains("log_dir"@),
    ensures
        0 <= k < common_args(t, keys, Some(dir)).len() - 1,
        common_args(t, keys, Some(dir))[k] == "--log-dir"@,
        common_args(t, keys, Some(dir))[k + 1] == dir,
    decreases keys.len(),
{
    let before = common_args(t, keys.drop_last(), Some(dir));
    if keys.last() == "log_dir"@ {
        reveal_strlit("--");
        reveal_strlit("--log-dir");
        reveal_strlit("log_dir");
        reveal_strlit("qos");
        reveal_strlit("tick_rate_hz");
        reveal_strlit("values_per_tick");
        reveal_strlit("threading_modes");
        reveal_strlit("recv_buffer_kb");
        assert("log_dir"@[0] == 'l' && "qos"@[0] == 'q' && "tick_rate_hz"@[0] == 't'
            && "values_per_tick"@[0] == 'v' && "threading_modes"@[0] == 't' && "recv_buffer_kb"@[0]
            == 'r');
        assert(flag("log_dir"@) =~= "--log-dir"@);
        before.len() as int
    } else {
        let p = choose|p: int| 0 <= p < keys.len() && keys[p] == "log_dir"@;
        assert(keys.drop_last()[p] == "log_dir"@);
        own_log_dir_is_replaced(t, keys.drop_last(), dir)
    }
}

/// A spawn that is given a log folder is told to use it, whether or not the variant names
/// one of its own.
pub proof fn log_dir_is_handed_on(
    variant: VariantView,
    spawn: SpawnArgs<'_>,
    peers: Seq<char>,
    overrides: Option<TableView>,
)
    requires
        variant.common.dom().finite(),
        spawn.log_dir() is Some,
    ensures
        ({
            let args = variant_args(variant, spawn, peers, overrides);
            exists|k: int|
                0 <= k < args.len() - 1 && #[trigger] args[k] == "--log-dir"@ && args[k + 1]
                    == spawn.log_dir()->0
        }),
{
    let args = variant_args(variant, spawn, peers, overrides);
    let t = variant.common;
    let keys = listing(t.dom());
    let common = common_args(t, keys, spawn.log_dir());
    listing_holds(t.dom());
    if t.contains_key("log_dir"@) {
        assert(keys.to_set().contains("log_dir"@));
        let k = own_log_dir_is_replaced(t, keys, spawn.log_dir()->0);
        assert(args[k] == common[k] && args[k + 1] == common[k + 1]);
    } else {
        let k = common.len() as int;
        assert(args[k] == "--log-dir"@ && args[k + 1] == spawn.log_dir()->0);
    }
}

// ---------------------------------------------------------------------
// Laws of overrides and command lines
// ---------------------------------------------------------------------

proof fn first_at_facts(s: Seq<char>, c: char)
    ensures
        match first_at(s, c) {
            Some(i) => 0 <= i < s.len() && s[i] == c && (forall|j: int| 0 <= j < i ==> s[j] != c),
            None => !s.contains(c),
        },
    decreases s.len(),
{
    if s.len() > 0 && s[0] != c {
        let t = s.drop_first();
        first_at_facts(t, c);
        match first_at(t, c) {
            Some(i) => {
                assert forall|j: int| 0 <= j < i + 1 implies s[j] != c by {
                    if j > 0 {
                        assert(s[j] == t[j - 1]);
                    }
                }
            },
            None => {
                assert forall|j: int| 0 <= j < s.len() implies s[j] != c by {
                    if j > 0 {
                        assert(s[j] == t[j - 1]);
                        assert(t.contains(t[j - 1]));
                    }
                }
            },
        }
    }
}

proof fn split_of_joined(a: Seq<char>, c: char, b: Seq<char>)
    requires
        !a.contains(c),
    ensures
        split_at_first(a + seq![c] + b, c) == Some((a, b)),
{
    let s = a + seq![c] + b;
    first_at_facts(s, c);
    assert(s[a.len() as int] == c);
    assert(s.contains(c));
    let i = first_at(s, c)->0;
    if i < a.len() {
        assert(a.contains(a[i]));
    }
    assert(i == a.len());
    assert(s.take(i) =~= a);
    assert(s.skip(i + 1) =~= b);
}

/// An override is taken apart at the first dot and at the first equals sign behind it: it
/// reads back as the selector, the key and the value that it was put together of, and the
/// value may hold anything.
pub proof fn override_is_taken_apart(selector: Seq<char>, key: Seq<char>, value: Seq<char>)
    requires
        selector.len() > 0,
        key.len() > 0,
        !selector.contains('.'),
        !key.contains('='),
    ensures
        override_of(selector + seq!['.'] + key + seq!['='] + value) == Ok::<OverrideView, ArgFault>(
            OverrideView { selector, key, value: ValueView::Text(value) },
        ),
{
    let rest = key + seq!['='] + value;
    assert(selector + seq!['.'] + key + seq!['='] + value =~= selector + seq!['.'] + rest);
    split_of_joined(selector, '.', rest);
    split_of_joined(key, '=', value);
}

/// What makes an override unreadable: it has no dot; nothing stands before its first dot;
/// no equals sign follows that dot; nothing stands between the dot and that sign.
pub proof fn unreadable_overrides(entry: Seq<char>, selector: Seq<char>, rest: Seq<char>)
    ensures
        override_of(entry) == Err::<OverrideView, ArgFault>(ArgFault::MissingDot) <==> !entry.contains('.'),
        override_of(seq!['.'] + rest) == Err::<OverrideView, ArgFault>(ArgFault::EmptyVariant),
        selector.len() > 0 && !selector.contains('.') && !rest.contains('=') ==> override_of(
            selector + seq!['.'] + rest,
        ) == Err::<OverrideView, ArgFault>(ArgFault::MissingEquals),
        selector.len() > 0 && !selector.contains('.') ==> override_of(
            selector + seq!['.'] + (seq!['='] + rest),
        ) == Err::<OverrideView, ArgFault>(ArgFault::EmptyKey),
{
    first_at_facts(entry, '.');
    let none = Seq::<char>::empty();
    assert(seq!['.'] + rest =~= none + seq!['.'] + rest);
    split_of_joined(none, '.', rest);
    if selector.len() > 0 && !selector.contains('.') {
        split_of_joined(selector, '.', rest);
        first_at_facts(rest, '=');
        split_of_joined(selector, '.', seq!['='] + rest);
        assert(seq!['='] + rest =~= none + seq!['='] + rest);
        split_of_joined(none, '=', rest);
    }
}

/// The overrides are read one by one and keep their order. They can be read just where
/// each of them can, and else the error is that of the first that cannot.
pub proof fn overrides_are_read_in_order(raw: Seq<Seq<char>>)
    ensures
        overrides_of(raw) is Ok <==> forall|i: int| 0 <= i < raw.len() ==> override_of(#[trigger] raw[i]) is Ok,
        overrides_of(raw) is Ok ==> overrides_of(raw)->Ok_0.len() == raw.len() && forall|i: int|
            0 <= i < raw.len() ==> override_of(#[trigger] raw[i])->Ok_0 == overrides_of(raw)->Ok_0[i],
        overrides_of(raw) is Err ==> exists|i: int|
            {
                &&& 0 <= i < raw.len()
                &&& override_of(#[trigger] raw[i]) is Err
                &&& overrides_of(raw)->Err_0 == (raw[i], override_of(raw[i])->Err_0)
                &&& forall|j: int| 0 <= j < i ==> override_of(#[trigger] raw[j]) is Ok
            },
    decreases raw.len(),
{
    if raw.len() > 0 {
        let t = raw.drop_last();
        let n = raw.len() - 1;
        overrides_are_read_in_order(t);
        assert forall|i: int| 0 <= i < n implies t[i] == #[trigger] raw[i] by {}
        assert(raw[n] == raw.last());
        if overrides_of(t) is Err {
            let i = choose|i: int|
                {
                    &&& 0 <= i < t.len()
                    &&& override_of(#[trigger] t[i]) is Err
                    &&& overrides_of(t)->Err_0 == (t[i], override_of(t[i])->Err_0)
                    &&& forall|j: int| 0 <= j < i ==> override_of(#[trigger] t[j]) is Ok
                };
            assert(override_of(raw[i]) is Err);
            assert forall|j: int| 0 <= j < i implies override_of(#[trigger] raw[j]) is Ok by {
                assert(override_of(t[j]) is Ok);
            }
        } else {
            assert forall|j: int| 0 <= j < n implies override_of(#[trigger] raw[j]) is Ok by {
                assert(override_of(t[j]) is Ok);
            }
            if override_of(raw.last()) is Ok {
                assert forall|i: int| 0 <= i < raw.len() implies override_of(#[trigger] raw[i])->Ok_0
                    == overrides_of(raw)->Ok_0[i] by {
                    if i < n {
                        assert(override_of(t[i])->Ok_0 == overrides_of(t)->Ok_0[i]);
                    }
                }
            } else {
                assert(override_of(raw[n]) is Err);
            }
        }
    }
}

/// Grouping adds nothing: every value in a group is that of an override with the group's
/// selector and the value's key.
pub proof fn groups_hold_only_overrides(views: Seq<OverrideView>, selector: Seq<char>, key: Seq<char>)
    requires
        grouped(views).contains_key(selector),
        grouped(views)[selector].contains_key(key),
    ensures
        exists|i: int|
            0 <= i < views.len() && (#[trigger] views[i]).selector == selector && views[i].key == key
                && views[i].value == grouped(views)[selector][key],
    decreases views.len(),
{
    if views.len() > 0 {
        let t = views.drop_last();
        let n = views.len() - 1;
        if views[n].selector == selector && views[n].key == key {
            assert(views[n] == views.last());
        } else {
            groups_hold_only_overrides(t, selector, key);
            let i = choose|i: int|
                0 <= i < t.len() && (#[trigger] t[i]).selector == selector && t[i].key == key && t[i].value
                    == grouped(t)[selector][key];
            assert(views[i] == t[i]);
        }
    }
}

/// A key has an overridden value just where some override of it has a selector that
/// matches, and the value, with its selector, is that of the last such override.
pub proof fn overridden_by_the_last_match(views: Seq<OverrideView>, name: Seq<char>, key: Seq<char>)
    ensures
        resolved_args(views, name).contains_key(key) <==> exists|i: int|
            0 <= i < views.len() && (#[trigger] views[i]).key == key && glob(views[i].selector, name),
        resolved_args(views, name).contains_key(key) ==> exists|i: int|
            {
                &&& 0 <= i < views.len()
                &&& (#[trigger] views[i]).key == key
                &&& glob(views[i].selector, name)
                &&& resolved_args(views, name)[key].value == views[i].value
                &&& resolved_args(views, name)[key].selector == views[i].selector
                &&& forall|j: int|
                    i < j < views.len() ==> !((#[trigger] views[j]).key == key && glob(views[j].selector, name))
            },
    decreases views.len(),
{
    if views.len() > 0 {
        let t = views.drop_last();
        let n = views.len() - 1;
        overridden_by_the_last_match(t, name, key);
        assert forall|i: int| 0 <= i < n implies t[i] == #[trigger] views[i] by {}
        if views[n].key == key && glob(views[n].selector, name) {
            assert(resolved_args(views, name)[key].value == views[n].value);
        } else if resolved_args(t, name).contains_key(key) {
            let i = choose|i: int|
                {
                    &&& 0 <= i < t.len()
                    &&& (#[trigger] t[i]).key == key
                    &&& glob(t[i].selector, name)
                    &&& resolved_args(t, name)[key].value == t[i].value
                    &&& resolved_args(t, name)[key].selector == t[i].selector
                    &&& forall|j: int|
                        i < j < t.len() ==> !((#[trigger] t[j]).key == key && glob(t[j].selector, name))
                };
            assert(views[i].key == key && glob(views[i].selector, name));
            assert forall|j: int| i < j < views.len() implies !((#[trigger] views[j]).key == key && glob(
                views[j].selector,
                name,
            )) by {
                if j < n {
                    assert(t[j] == views[j]);
                }
            }
        } else {
            assert forall|j: int| 0 <= j < views.len() implies !((#[trigger] views[j]).key == key && glob(
                views[j].selector,
                name,
            )) by {
                if j < n {
                    assert(t[j] == views[j]);
                }
            }
        }
    }
}

/// The arguments in effect are those of the config and those of the overrides, and no
/// others; an overridden one has the value of the override and is said to come from the
/// command line, and any other has that of the config and is said to come from there.
pub proof fn arguments_in_effect(toml_specific: Option<TableView>, overrides: Option<TableView>, key: Seq<char>)
    ensures
        ({
            let all = merged(toml_specific, overrides);
            let set = overrides is Some && overrides->0.contains_key(key);
            let own = toml_specific is Some && toml_specific->0.contains_key(key);
            &&& all.contains_key(key) <==> set || own
            &&& set ==> all[key] == overrides->0[key] && provenance(overrides, key) == SpecificArgProvenance::Cli
            &&& !set && own ==> all[key] == toml_specific->0[key] && provenance(overrides, key)
                == SpecificArgProvenance::Toml
        }),
{
}

/// A flag is two dashes and the key, in which a dash stands for each underscore.
pub proof fn flags_are_keys_with_dashes(key: Seq<char>)
    ensures
        flag(key).len() == key.len() + 2,
        flag(key)[0] == '-' && flag(key)[1] == '-',
        forall|i: int|
            0 <= i < key.len() ==> #[trigger] flag(key)[i + 2] == (if key[i] == '_' {
                '-'
            } else {
                key[i]
            }),
{
    reveal_strlit("--");
}

/// The value of `--peers`: one runner is its name, an equals sign and its host, and lists of
/// runners are put side by side with a comma.
pub proof fn peers_are_put_side_by_side(
    hosts: Map<Seq<char>, String>,
    a: Seq<Seq<char>>,
    b: Seq<Seq<char>>,
    name: Seq<char>,
)
    ensures
        peers_text(hosts, seq![name]) == name + seq!['='] + hosts[name]@,
        a.len() > 0 && b.len() > 0 ==> peers_text(hosts, a + b) == peers_text(hosts, a) + seq![','] + peers_text(
            hosts,
            b,
        ),
    decreases b.len(),
{
    reveal_strlit("=");
    reveal_strlit(",");
    assert("="@ =~= seq!['=']);
    assert(","@ =~= seq![',']);
    assert(seq![name].last() == name);
    if a.len() > 0 && b.len() > 0 {
        let t = b.drop_last();
        let item = b.last() + "="@ + hosts[b.last()]@;
        assert((a + b).drop_last() =~= a + t);
        assert((a + b).last() == b.last());
        if t.len() > 0 {
            peers_are_put_side_by_side(hosts, a, t, name);
            assert(peers_text(hosts, a) + seq![','] + peers_text(hosts, t) + ","@ + item =~= peers_text(hosts, a)
                + seq![','] + (peers_text(hosts, t) + ","@ + item));
        } else {
            assert(a + t =~= a);
            assert(peers_text(hosts, b) =~= item);
            assert(peers_text(hosts, a) + ","@ + item =~= peers_text(hosts, a) + seq![','] + item);
        }
    }
}

/// The arguments as the operator sees them: one is its key, an equals sign, its value and in
/// brackets where it comes from, and lists of them are put side by side with a comma and a
/// blank.
pub proof fn shown_arguments_are_put_side_by_side(
    all: TableView,
    resolved: Map<Seq<char>, ResolvedView>,
    a: Seq<Seq<char>>,
    b: Seq<Seq<char>>,
    key: Seq<char>,
)
    ensures
        specific_args_text(all, resolved, seq![key]) == key + "="@ + all[key].text() + (
        if resolved.contains_key(key) {
            " (cli: "@ + resolved[key].selector + ")"@
        } else {
            " (toml)"@
        }),
        a.len() > 0 && b.len() > 0 ==> specific_args_text(all, resolved, a + b) == specific_args_text(
            all,
            resolved,
            a,
        ) + ", "@ + specific_args_text(all, resolved, b),
    decreases b.len(),
{
    assert(seq![key].last() == key);
    if a.len() > 0 && b.len() > 0 {
        let t = b.drop_last();
        let x = b.last();
        let item = x + "="@ + all[x].text() + origin_text(resolved, x);
        assert((a + b).drop_last() =~= a + t);
        assert((a + b).last() == x);
        if t.len() > 0 {
            shown_arguments_are_put_side_by_side(all, resolved, a, t, key);
            assert(specific_args_text(all, resolved, a) + ", "@ + specific_args_text(all, resolved, t) + ", "@
                + item =~= specific_args_text(all, resolved, a) + ", "@ + (specific_args_text(all, resolved, t)
                + ", "@ + item));
        } else {
            assert(a + t =~= a);
            assert(specific_args_text(all, resolved, b) =~= item);
        }
    }
}

/// Of the keys those that are handed on as they stand in the config.
pub open spec fn handed_on(keys: Seq<Seq<char>>) -> Seq<Seq<char>> {
    keys.filter(
        |k: Seq<char>|
            !(k == "qos"@ || k == "tick_rate_hz"@ || k == "values_per_tick"@ || k == "threading_modes"@ || k
                == "recv_buffer_kb"@),
    )
}

/// The common arguments of a command line are, in the order of the keys, a flag and a value
/// for each key that is not set anew for each spawn: the value of the config, or the log
/// folder that takes its place.
pub proof fn common_arguments_in_full(t: TableView, keys: Seq<Seq<char>>, log_dir: Option<Seq<char>>)
    ensures
        ({
            let args = common_args(t, keys, log_dir);
            let given = handed_on(keys);
            &&& args.len() == 2 * given.len()
            &&& forall|i: int|
                0 <= i < given.len() ==> {
                    &&& args[2 * i] == flag(#[trigger] given[i])
                    &&& args[2 * i + 1] == (if given[i] == "log_dir"@ && log_dir is Some {
                        log_dir->0
                    } else {
                        t[given[i]].text()
                    })
                }
        }),
    decreases keys.len(),
{
    reveal(Seq::filter);
    if keys.len() > 0 {
        let before = keys.drop_last();
        common_arguments_in_full(t, before, log_dir);
        let given = handed_on(keys);
        let n = handed_on(before).len() as int;
        assert forall|i: int| 0 <= i < given.len() implies {
            &&& common_args(t, keys, log_dir)[2 * i] == flag(#[trigger] given[i])
            &&& common_args(t, keys, log_dir)[2 * i + 1] == (if given[i] == "log_dir"@ && log_dir is Some {
                log_dir->0
            } else {
                t[given[i]].text()
            })
        } by {
            if i < n {
                assert(given[i] == handed_on(before)[i]);
            }
        }
    }
}

/// The specific arguments of a command line are, in the order of the keys, a flag and a
/// value for each.
pub proof fn specific_arguments_in_full(t: TableView, keys: Seq<Seq<char>>)
    ensures
        ({
            let args = specific_args(t, keys);
            &&& args.len() == 2 * keys.len()
            &&& forall|i: int|
                0 <= i < keys.len() ==> args[2 * i] == flag(#[trigger] keys[i]) && args[2 * i + 1]
                    == t[keys[i]].text()
        }),
    decreases keys.len(),
{
    if keys.len() > 0 {
        let before = keys.drop_last();
        specific_arguments_in_full(t, before);
        assert forall|i: int| 0 <= i < keys.len() implies specific_args(t, keys)[2 * i] == flag(
            #[trigger] keys[i],
        ) && specific_args(t, keys)[2 * i + 1] == t[keys[i]].text() by {
            if i < keys.len() - 1 {
                assert(keys[i] == before[i]);
            }
        }
    }
}

/// Behind the common arguments every spawn is told its rate, its number of values, its
/// level, its mode, its buffer, when it was started, its name, its runner, the run and the
/// hosts of all runners, each behind its flag; where there are specific arguments they
/// follow behind a double dash, and nothing else does.
pub proof fn spawn_is_told_what_it_needs(
    variant: VariantView,
    spawn: SpawnArgs<'_>,
    peers: Seq<char>,
    overrides: Option<TableView>,
)
    ensures
        ({
            let args = variant_args(variant, spawn, peers, overrides);
            let common = common_args(variant.common, listing(variant.common.dom()), spawn.log_dir());
            let all = merged(variant.specific, overrides);
            let added = spawn.log_dir_override is Some && !variant.common.contains_key("log_dir"@);
            let p = common.len() + (if added {
                2int
            } else {
                0int
            });
            &&& args.take(common.len() as int) == common
            &&& added ==> args[p - 2] == "--log-dir"@ && args[p - 1] == spawn.log_dir_override->0@
            &&& args[p] == "--tick-rate-hz"@ && args[p + 1] == decimal(spawn.tick_rate_hz as nat)
            &&& args[p + 2] == "--values-per-tick"@ && args[p + 3] == decimal(spawn.values_per_tick as nat)
            &&& args[p + 4] == "--qos"@ && args[p + 5] == decimal(spawn.qos as nat)
            &&& args[p + 6] == "--threading-mode"@ && args[p + 7] == spawn.threading_mode.word()
            &&& args[p + 8] == "--recv-buffer-kb"@ && args[p + 9] == decimal(spawn.recv_buffer_kb as nat)
            &&& args[p + 10] == "--launch-ts"@ && args[p + 11] == spawn.launch_ts@
            &&& args[p + 12] == "--variant"@ && args[p + 13] == spawn.variant_name@
            &&& args[p + 14] == "--runner"@ && args[p + 15] == spawn.runner_name@
            &&& args[p + 16] == "--run"@ && args[p + 17] == spawn.run@
            &&& args[p + 18] == "--peers"@ && args[p + 19] == peers
            &&& all.dom() == Set::<Seq<char>>::empty() ==> args.len() == p + 20
            &&& all.dom() != Set::<Seq<char>>::empty() ==> args[p + 20] == "--"@ && args.skip(p + 21)
                == specific_args(all, listing(all.dom()))
        }),
{
    let args = variant_args(variant, spawn, peers, overrides);
    let common = common_args(variant.common, listing(variant.common.dom()), spawn.log_dir());
    let all = merged(variant.specific, overrides);
    let added = added_log_dir(variant.common, spawn.log_dir());
    let p = (common.len() + added.len()) as int;
    assert(args.take(common.len() as int) =~= common);
    if all.dom() == Set::<Seq<char>>::empty() {
        assert(all =~= Map::empty());
    } else {
        assert(all != Map::<Seq<char>, ValueView>::empty());
        assert(args.skip(p + 21) =~= specific_args(all, listing(all.dom())));
    }
}

/// Without their selectors the overrides of a variant are the same keys with the same
/// values.
pub proof fn values_stay_without_selectors(m: Map<Seq<char>, ResolvedView>, key: Seq<char>)
    ensures
        values_only(m).contains_key(key) <==> m.contains_key(key),
        m.contains_key(key) ==> values_only(m)[key] == m[key].value,
{
}

/// What overrides say is what was read of them, in their order, and resolved ones say it
/// under their keys.
pub proof fn overrides_say_what_was_read(args: Seq<VariantArg>, m: NameMap<ResolvedArg>, key: Seq<char>)
    ensures
        arg_views(args).len() == args.len(),
        forall|i: int|
            0 <= i < args.len() ==> {
                let o = arg_views(args)[i];
                o.selector == (#[trigger] args[i]).selector@ && o.key == args[i].key@ && o.value
                    == args[i].value@
            },
        resolved_view(m).contains_key(key) <==> m@.contains_key(key),
        m@.contains_key(key) ==> resolved_view(m)[key].value == m@[key].value@ && resolved_view(
            m,
        )[key].selector == m@[key].selector@,
{
}

/// The text of an error about an override shows the override between quotes and what is
/// missing or empty in it.
pub proof fn errors_show_the_override(entry: Seq<char>)
    ensures
        arg_fault_text(entry, ArgFault::MissingDot) == "malformed --variant-arg '"@ + entry
            + "': expected '<variant>.<key>=<value>' (missing '.')"@,
        arg_fault_text(entry, ArgFault::MissingEquals) == "malformed --variant-arg '"@ + entry
            + "': expected '<variant>.<key>=<value>' (missing '=')"@,
        arg_fault_text(entry, ArgFault::EmptyVariant) == "malformed --variant-arg '"@ + entry
            + "': variant name (before the first '.') is empty"@,
        arg_fault_text(entry, ArgFault::EmptyKey) == "malformed --variant-arg '"@ + entry
            + "': key (between '.' and '=') is empty"@,
{
}

/// A selector with one star between two parts without any matches just the texts that begin
/// with the first part and end with the second, without an overlap.
pub proof fn star_in_the_middle_of_a_selector(
    pattern: &str,
    text: &str,
    r: bool,
    first: Seq<char>,
    second: Seq<char>,
)
    requires
        call_ensures(glob_matches, (pattern, text), r),
        pattern@ == first + seq!['*'] + second,
        !first.contains('*') && !first.contains('?'),
        !second.contains('*') && !second.contains('?'),
    ensures
        r <==> {
            &&& text@.len() >= first.len() + second.len()
            &&& text@.take(first.len() as int) == first
            &&& text@.skip(text@.len() - second.len()) == second
        },
{
    let t = text@;
    let (n, m) = (first.len() as int, second.len() as int);
    let tail = seq!['*'] + second;
    assert(pattern@ =~= first + tail);
    selectors_side_by_side(first, tail, t);
    if r {
        let k = choose|k: int|
            0 <= k <= t.len() && #[trigger] glob(first, t.take(k)) && glob(tail, t.skip(k));
        plain_selector_is_literal(first, t.take(k));
        assert(k == n);
        let u = t.skip(k);
        selectors_side_by_side(seq!['*'], second, u);
        let i = choose|i: int|
            0 <= i <= u.len() && #[trigger] glob(seq!['*'], u.take(i)) && glob(second, u.skip(i));
        plain_selector_is_literal(second, u.skip(i));
        assert(t.skip(t.len() - m) =~= u.skip(i));
    }
    if t.len() >= n + m && t.take(n) == first && t.skip(t.len() - m) == second {
        let between = t.subrange(n, t.len() - m);
        plain_selector_is_literal(first, first);
        plain_selector_is_literal(second, second);
        star_stands_for_any_text(first, second, first, between, second);
        assert(first + between + second =~= t);
    }
}

/// An override on the command line is taken apart at its first dot and at the first equals sign
/// behind it, and what stands behind that is its value, as a text.
pub proof fn overrides_are_taken_apart(
    entry: &str,
    r: Result<VariantArg, VariantArgError>,
    selector: Seq<char>,
    key: Seq<char>,
    value: Seq<char>,
)
    requires
        call_ensures(parse_variant_arg, (entry,), r),
        entry@ == selector + seq!['.'] + key + seq!['='] + value,
        !selector.contains('.'),
        !key.contains('='),
        selector.len() > 0,
        key.len() > 0,
    ensures
        r is Ok,
        r->Ok_0.selector@ == selector,
        r->Ok_0.key@ == key,
        r->Ok_0.value@ == ValueView::Text(value),
{
    override_is_taken_apart(selector, key, value);
}

/// An argument of a spawn is overridden just where an override for its key matches the name of
/// the spawn, and then by the last such one.
pub proof fn spawn_is_overridden_by_the_last_match(
    args: &[VariantArg],
    name: &str,
    r: NameMap<ResolvedArg>,
    key: Seq<char>,
)
    requires
        call_ensures(resolve_for_variant, (args, name), r),
    ensures
        r@.contains_key(key) <==> exists|i: int|
            0 <= i < args@.len() && (#[trigger] args@[i]).key@ == key && glob(args@[i].selector@, name@),
        r@.contains_key(key) ==> exists|i: int|
            {
                &&& 0 <= i < args@.len()
                &&& (#[trigger] args@[i]).key@ == key
                &&& glob(args@[i].selector@, name@)
                &&& r@[key].value@ == args@[i].value@
                &&& r@[key].selector@ == args@[i].selector@
                &&& forall|j: int|
                    i < j < args@.len() ==> !((#[trigger] args@[j]).key@ == key && glob(
                        args@[j].selector@,
                        name@,
                    ))
            },
{
    let v = arg_views(args@);
    overrides_say_what_was_read(args@, r, key);
    overridden_by_the_last_match(v, name@, key);
    if r@.contains_key(key) {
        let i = choose|i: int|
            {
                &&& 0 <= i < v.len()
                &&& (#[trigger] v[i]).key == key
                &&& glob(v[i].selector, name@)
                &&& resolved_args(v, name@)[key].value == v[i].value
                &&& resolved_args(v, name@)[key].selector == v[i].selector
                &&& forall|j: int|
                    i < j < v.len() ==> !((#[trigger] v[j]).key == key && glob(v[j].selector, name@))
            };
        assert(args@[i].key@ == v[i].key);
        assert forall|j: int| i < j < args@.len() implies !((#[trigger] args@[j]).key@ == key && glob(
            args@[j].selector@,
            name@,
        )) by {
            assert(v[j].key == args@[j].key@ && v[j].selector == args@[j].selector@);
        }
    }
    if exists|i: int|
        0 <= i < args@.len() && (#[trigger] args@[i]).key@ == key && glob(args@[i].selector@, name@) {
        let i = choose|i: int|
            0 <= i < args@.len() && (#[trigger] args@[i]).key@ == key && glob(args@[i].selector@, name@);
        assert(v[i].key == key && glob(v[i].selector, name@));
    }
}

/// The arguments of a variant are its own with the overrides put over them.
pub proof fn overrides_are_put_over_the_config(
    own: Option<&Table>,
    overrides: Option<&Table>,
    r: Table,
    key: Seq<char>,
)
    requires
        call_ensures(merge_specific_with_overrides, (own, overrides), r),
    ensures
        ({
            let set = overrides is Some && overrides->0@.contains_key(key);
            let has = own is Some && own->0@.contains_key(key);
            &&& r@.contains_key(key) <==> set || has
            &&& set ==> r@[key]@ == overrides->0@[key]@
            &&& !set && has ==> r@[key]@ == own->0@[key]@
        }),
{
    arguments_in_effect(table_ref_view(own), table_ref_view(overrides), key);
    assert(table_view(r).contains_key(key) <==> r@.contains_key(key));
    if let Some(t) = own {
        assert(table_view(*t).contains_key(key) <==> t@.contains_key(key));
    }
    if let Some(t) = overrides {
        assert(table_view(*t).contains_key(key) <==> t@.contains_key(key));
    }
}

/// What a spawn is told, behind the settings of its variant: its own settings, the time of its
/// launch, its name, its runner, its run and its peers, each behind its flag.
pub proof fn spawn_is_told_its_own_settings(
    variant: &VariantConfig,
    run: &str,
    runner: &str,
    launch_ts: &str,
    name: &str,
    qos: u8,
    hz: u32,
    vpt: u32,
    mode: ThreadingMode,
    kb: u32,
    hosts: &NameMap<String>,
    r: Vec<String>,
)
    requires
        call_ensures(
            build_variant_args,
            (variant, run, runner, launch_ts, None, name, qos, hz, vpt, mode, kb, hosts, None),
            r,
        ),
        variant@.specific is None,
    ensures
        ({
            let args = texts(r@);
            let p = args.len() - 20;
            &&& p >= 0
            &&& args[p] == "--tick-rate-hz"@ && args[p + 1] == decimal(hz as nat)
            &&& args[p + 2] == "--values-per-tick"@ && args[p + 3] == decimal(vpt as nat)
            &&& args[p + 4] == "--qos"@ && args[p + 5] == decimal(qos as nat)
            &&& args[p + 6] == "--threading-mode"@ && args[p + 7] == mode.word()
            &&& args[p + 8] == "--recv-buffer-kb"@ && args[p + 9] == decimal(kb as nat)
            &&& args[p + 10] == "--launch-ts"@ && args[p + 11] == launch_ts@
            &&& args[p + 12] == "--variant"@ && args[p + 13] == name@
            &&& args[p + 14] == "--runner"@ && args[p + 15] == runner@
            &&& args[p + 16] == "--run"@ && args[p + 17] == run@
            &&& args[p + 18] == "--peers"@ && args[p + 19] == peers_text(hosts@, listing(hosts@.dom()))
        }),
{
    let spawn = SpawnArgs {
        run,
        runner_name: runner,
        launch_ts,
        log_dir_override: None,
        variant_name: name,
        qos,
        tick_rate_hz: hz,
        values_per_tick: vpt,
        threading_mode: mode,
        recv_buffer_kb: kb,
    };
    let peers = peers_text(hosts@, listing(hosts@.dom()));
    spawn_is_told_what_it_needs(variant@, spawn, peers, None);
    assert(merged(variant@.specific, None).dom() =~= Set::empty());
}

} // verus!

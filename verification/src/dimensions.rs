//! The dimensions of a variant: the values over which it is expanded into spawns.

use crate::text::{debug_text, decimal, decimal_i64, decimal_int, decimal_u64, same};
use crate::toml_value::{
    item_debug, item_views, value_debug, ItemView, TomlItem, TomlValue, ValueView,
};
use vstd::prelude::*;

verus! {

// ---------------------------------------------------------------------
// Errors
// ---------------------------------------------------------------------

/// What is wrong with a setting.
#[derive(Debug, Clone, Copy, PartialEq, Eq, Structural)]
pub enum Fault {
    /// A quality of service level outside 1 to 4.
    QosRange(u8),
    /// Zero, where a positive number is asked for.
    NotPositive,
    /// An array without elements.
    EmptyArray,
    /// An array with a zero, where positive numbers are asked for.
    HasZero,
    /// A number that does not fit in so many bits.
    TooWide { n: i64, bits: u8 },
    /// An element that is not an integer.
    NotInteger,
    /// Neither an integer nor an array.
    WrongType,
    /// Neither an integer nor an array, for a setting that may be left out.
    WrongQosType,
    /// The setting is not there.
    Missing,
    /// A word that is no threading mode.
    UnknownMode,
    /// Not a word.
    NotAWord,
    /// Not a number.
    NotANumber,
}

/// A setting that cannot be used.
#[derive(Debug, Clone, PartialEq, Eq)]
pub struct SpecError {
    /// The name of the setting.
    pub field: String,
    pub fault: Fault,
    /// The value in question, where the fault lies in one.
    pub shown: String,
}

/// A fault together with the value in question.
pub struct Flaw {
    pub fault: Fault,
    pub shown: Seq<char>,
}

/// A fault that lies in no value in particular.
pub open spec fn plain(fault: Fault) -> Flaw {
    Flaw { fault, shown: Seq::empty() }
}

/// The text of an error about the setting `field`.
pub open spec fn flaw_text(field: Seq<char>, flaw: Flaw) -> Seq<char> {
    match flaw.fault {
        Fault::QosRange(n) => "qos "@ + decimal(n as nat) + " is out of range (must be 1..=4)"@,
        Fault::NotPositive => field + " must be a positive integer (got 0)"@,
        Fault::EmptyArray => field + " array must be non-empty"@,
        Fault::HasZero => field + " array contains 0; all values must be positive"@,
        Fault::TooWide { n, bits } => field + " value "@ + decimal_int(n as int) + " does not fit in u"@
            + decimal(bits as nat),
        Fault::NotInteger => field + " array element is not an integer: "@ + flaw.shown,
        Fault::WrongType => field + " must be an integer or an array of integers (got "@ + flaw.shown
            + ")"@,
        Fault::WrongQosType => field + " must be an integer, an array of integers, or omitted (got "@
            + flaw.shown + ")"@,
        Fault::Missing => field + " is required in [variant.common]"@,
        Fault::UnknownMode => field + " value '"@ + flaw.shown + "' is not 'single' or 'multi'"@,
        Fault::NotAWord => field + " must be a string or an array of strings (got "@ + flaw.shown + ")"@,
        Fault::NotANumber => field + " must be an integer (got "@ + flaw.shown + ")"@,
    }
}

/// The text of an error about the setting `field`, with its cause where it has one.
pub open spec fn flaw_full_text(field: Seq<char>, flaw: Flaw) -> Seq<char> {
    match flaw.fault {
        Fault::TooWide { n, bits } => flaw_text(field, flaw)
            + ": out of range integral type conversion attempted"@,
        _ => flaw_text(field, flaw),
    }
}

impl SpecError {
    /// What is wrong.
    pub open spec fn flaw(&self) -> Flaw {
        Flaw { fault: self.fault, shown: self.shown@ }
    }

    /// The text of the error.
    pub fn message(&self) -> (r: String)
        ensures
            r@ == flaw_text(self.field@, self.flaw()),
    {
        let mut s = self.field.clone();
        match self.fault {
            Fault::QosRange(n) => {
                s = "qos ".to_owned();
                s.append(decimal_u64(n as u64).as_str());
                s.append(" is out of range (must be 1..=4)");
            },
            Fault::NotPositive => {
                s.append(" must be a positive integer (got 0)");
            },
            Fault::EmptyArray => {
                s.append(" array must be non-empty");
            },
            Fault::HasZero => {
                s.append(" array contains 0; all values must be positive");
            },
            Fault::TooWide { n, bits } => {
                s.append(" value ");
                s.append(decimal_i64(n).as_str());
                s.append(" does not fit in u");
                s.append(decimal_u64(bits as u64).as_str());
            },
            Fault::NotInteger => {
                s.append(" array element is not an integer: ");
                s.append(self.shown.as_str());
            },
            Fault::WrongType => {
                s.append(" must be an integer or an array of integers (got ");
                s.append(self.shown.as_str());
                s.append(")");
            },
            Fault::WrongQosType => {
                s.append(" must be an integer, an array of integers, or omitted (got ");
                s.append(self.shown.as_str());
                s.append(")");
            },
            Fault::Missing => {
                s.append(" is required in [variant.common]");
            },
            Fault::UnknownMode => {
                s.append(" value '");
                s.append(self.shown.as_str());
                s.append("' is not 'single' or 'multi'");
            },
            Fault::NotAWord => {
                s.append(" must be a string or an array of strings (got ");
                s.append(self.shown.as_str());
                s.append(")");
            },
            Fault::NotANumber => {
                s.append(" must be an integer (got ");
                s.append(self.shown.as_str());
                s.append(")");
            },
        }
        s
    }
}

impl SpecError {
    /// The text of the error, with its cause where it has one.
    pub fn full_message(&self) -> (r: String)
        ensures
            r@ == flaw_full_text(self.field@, self.flaw()),
    {
        let mut s = self.message();
        match self.fault {
            Fault::TooWide { n, bits } => {
                s.append(": out of range integral type conversion attempted");
            },
            _ => {},
        }
        s
    }
}

fn plain_error(field: &str, fault: Fault) -> (e: SpecError)
    ensures
        e.field@ == field@,
        e.flaw() == plain(fault),
{
    SpecError { field: field.to_owned(), fault, shown: String::new() }
}

// ---------------------------------------------------------------------
// Ascending numbers
// ---------------------------------------------------------------------

/// Each number is smaller than all that follow it.
pub open spec fn strictly_ascending(s: Seq<u32>) -> bool {
    forall|i: int, j: int| 0 <= i < j < s.len() ==> s[i] < s[j]
}

/// Each level is smaller than all that follow it.
pub open spec fn levels_ascending(s: Seq<u8>) -> bool {
    forall|i: int, j: int| 0 <= i < j < s.len() ==> s[i] < s[j]
}

fn distinct_numbers(v: &Vec<u32>) -> (r: Vec<u32>)
    ensures
        strictly_ascending(r@),
        forall|n: u32| r@.contains(n) == v@.contains(n),
{
    let mut r: Vec<u32> = Vec::new();
    for i in 0..v.len()
        invariant
            strictly_ascending(r@),
            forall|n: u32| r@.contains(n) == v@.take(i as int).contains(n),
    {
        let x: u32 = v[i];
        let mut k: usize = 0;
        while k < r.len() && r[k] < x
            invariant
                k <= r.len(),
                strictly_ascending(r@),
                forall|j: int| 0 <= j < k ==> r@[j] < x,
            decreases r.len() - k,
        {
            k = k + 1;
        }
        let ghost before = r@;
        if k == r.len() || r[k] != x {
            r.insert(k, x);
        }
        proof {
            let seen = v@.take(i as int);
            let next = v@.take(i + 1);
            assert(next =~= seen.push(x));
            assert forall|n: u32| r@.contains(n) == next.contains(n) by {
                if before.contains(n) {
                    let p = choose|p: int| 0 <= p < before.len() && before[p] == n;
                    if r@.len() == before.len() || p < k {
                        assert(r@[p] == n);
                    } else {
                        assert(r@[p + 1] == n);
                    }
                }
                if n == x {
                    assert(r@[k as int] == n);
                    assert(next[i as int] == n);
                }
                if seen.contains(n) {
                    let p = choose|p: int| 0 <= p < seen.len() && seen[p] == n;
                    assert(next[p] == n);
                }
                if next.contains(n) {
                    let p = choose|p: int| 0 <= p < next.len() && next[p] == n;
                    if p < i {
                        assert(seen[p] == n);
                    }
                }
                if r@.contains(n) && n != x {
                    let p = choose|p: int| 0 <= p < r@.len() && r@[p] == n;
                    if r@.len() == before.len() || p < k {
                        assert(before[p] == n);
                    } else {
                        assert(before[p - 1] == n);
                    }
                }
            }
        }
    }
    assert(v@.take(v@.len() as int) =~= v@);
    r
}

fn has_level(v: &Vec<u8>, n: u8) -> (r: bool)
    ensures
        r == v@.contains(n),
{
    for i in 0..v.len()
        invariant
            forall|j: int| 0 <= j < i ==> v@[j] != n,
    {
        if v[i] == n {
            return true;
        }
    }
    false
}

fn distinct_levels(v: &Vec<u8>) -> (r: Vec<u8>)
    ensures
        levels_ascending(r@),
        forall|n: u8| r@.contains(n) == v@.contains(n),
{
    let mut r: Vec<u8> = Vec::new();
    let mut k: u16 = 0;
    while k < 256
        invariant
            k <= 256,
            levels_ascending(r@),
            forall|j: int| 0 <= j < r@.len() ==> r@[j] < k,
            forall|n: u8| r@.contains(n) == (n < k && v@.contains(n)),
        decreases 256 - k,
    {
        let level: u8 = k as u8;
        let ghost before = r@;
        if has_level(v, level) {
            r.push(level);
        }
        proof {
            assert forall|n: u8| r@.contains(n) == (n < k + 1 && v@.contains(n)) by {
                if before.contains(n) {
                    let p = choose|p: int| 0 <= p < before.len() && before[p] == n;
                    assert(r@[p] == n);
                }
                if n == level && v@.contains(n) {
                    assert(r@[before.len() as int] == n);
                }
                if r@.contains(n) && n != level {
                    let p = choose|p: int| 0 <= p < r@.len() && r@[p] == n;
                    assert(before[p] == n);
                }
            }
        }
        k = k + 1;
    }
    r
}

// ---------------------------------------------------------------------
// Quality of service
// ---------------------------------------------------------------------

/// The quality of service levels of a variant.
#[derive(Debug, Clone, PartialEq, Eq)]
pub enum QosSpec {
    Single(u8),
    Multi(Vec<u8>),
    /// Levels 1 to 4.
    All,
}

/// What a `QosSpec` is.
pub enum QosView {
    Single(u8),
    Multi(Seq<u8>),
    All,
}

/// The first level outside 1 to 4.
pub open spec fn first_bad_level(v: Seq<u8>) -> Option<u8>
    decreases v.len(),
{
    if v.len() == 0 {
        None
    } else {
        match first_bad_level(v.drop_last()) {
            Some(n) => Some(n),
            None => if 1 <= v.last() <= 4 {
                None
            } else {
                Some(v.last())
            },
        }
    }
}

impl QosView {
    /// The level is among those of the variant.
    pub open spec fn has(self, n: u8) -> bool {
        match self {
            QosView::Single(m) => n == m,
            QosView::Multi(v) => v.contains(n),
            QosView::All => 1 <= n <= 4,
        }
    }

    /// What is wrong with the levels, if anything.
    pub open spec fn flaw(self) -> Option<Flaw> {
        match self {
            QosView::Single(n) => if 1 <= n <= 4 {
                None
            } else {
                Some(plain(Fault::QosRange(n)))
            },
            QosView::Multi(v) => if v.len() == 0 {
                Some(plain(Fault::EmptyArray))
            } else {
                match first_bad_level(v) {
                    Some(n) => Some(plain(Fault::QosRange(n))),
                    None => None,
                }
            },
            QosView::All => None,
        }
    }
}

impl QosSpec {
    pub open spec fn view(&self) -> QosView {
        match self {
            QosSpec::Single(n) => QosView::Single(*n),
            QosSpec::Multi(v) => QosView::Multi(v@),
            QosSpec::All => QosView::All,
        }
    }

    /// The levels, ascending and each once.
    pub fn levels(&self) -> (r: Vec<u8>)
        ensures
            levels_ascending(r@),
            forall|n: u8| #[trigger] r@.contains(n) == self@.has(n),
            r@ == level_listing(self@),
    {
        let r = self.listed();
        proof {
            assert(levels_ascending(r@) && (forall|n: u8| #[trigger] r@.contains(n) == self@.has(n)));
            ascending_levels_unique(level_listing(self@), r@);
        }
        r
    }

    fn listed(&self) -> (r: Vec<u8>)
        ensures
            levels_ascending(r@),
            forall|n: u8| #[trigger] r@.contains(n) == self@.has(n),
    {
        match self {
            QosSpec::Single(n) => {
                let mut r: Vec<u8> = Vec::new();
                r.push(*n);
                assert(r@[0] == *n);
                r
            },
            QosSpec::Multi(v) => distinct_levels(v),
            QosSpec::All => {
                let mut r: Vec<u8> = Vec::new();
                r.push(1);
                r.push(2);
                r.push(3);
                r.push(4);
                assert(r@[0] == 1 && r@[1] == 2 && r@[2] == 3 && r@[3] == 4);
                assert forall|n: u8| #[trigger] r@.contains(n) == (1 <= n <= 4) by {
                    if 1 <= n <= 4 {
                        assert(r@[n - 1] == n);
                    }
                }
                r
            },
        }
    }

    /// Whether all levels lie in 1 to 4 and there is at least one.
    pub fn validate(&self) -> (r: Result<(), SpecError>)
        ensures
            match r {
                Ok(()) => self@.flaw() is None,
                Err(e) => self@.flaw() == Some(e.flaw()) && e.field@ == "qos"@,
            },
    {
        match self {
            QosSpec::Single(n) => if 1 <= *n && *n <= 4 {
                Ok(())
            } else {
                Err(plain_error("qos", Fault::QosRange(*n)))
            },
            QosSpec::Multi(v) => {
                if v.len() == 0 {
                    return Err(plain_error("qos", Fault::EmptyArray));
                }
                for i in 0..v.len()
                    invariant
                        first_bad_level(v@.take(i as int)) is None,
                        v@.len() > 0,
                        self@ == QosView::Multi(v@),
                {
                    let n: u8 = v[i];
                    proof {
                        assert(v@.take(i + 1).drop_last() =~= v@.take(i as int));
                    }
                    if !(1 <= n && n <= 4) {
                        proof {
                            first_bad_level_stays(v@, i + 1);
                        }
                        return Err(plain_error("qos", Fault::QosRange(n)));
                    }
                }
                assert(v@.take(v@.len() as int) =~= v@);
                Ok(())
            },
            QosSpec::All => Ok(()),
        }
    }
}

proof fn first_bad_level_stays(v: Seq<u8>, n: int)
    requires
        0 <= n <= v.len(),
        first_bad_level(v.take(n)) is Some,
    ensures
        first_bad_level(v) == first_bad_level(v.take(n)),
    decreases v.len(),
{
    if n < v.len() {
        assert(v.drop_last().take(n) =~= v.take(n));
        first_bad_level_stays(v.drop_last(), n);
    } else {
        assert(v.take(n) =~= v);
    }
}

// ---------------------------------------------------------------------
// Positive numbers
// ---------------------------------------------------------------------

/// One positive number or several.
#[derive(Debug, Clone, PartialEq, Eq)]
pub enum PositiveSpec {
    Single(u32),
    Multi(Vec<u32>),
}

/// What a `PositiveSpec` is.
pub enum PositiveView {
    Single(u32),
    Multi(Seq<u32>),
}

impl PositiveView {
    /// The number is among those of the variant.
    pub open spec fn has(self, n: u32) -> bool {
        match self {
            PositiveView::Single(m) => n == m,
            PositiveView::Multi(v) => v.contains(n),
        }
    }

    /// What is wrong with the numbers, if anything.
    pub open spec fn flaw(self) -> Option<Flaw> {
        match self {
            PositiveView::Single(n) => if n == 0 {
                Some(plain(Fault::NotPositive))
            } else {
                None
            },
            PositiveView::Multi(v) => if v.len() == 0 {
                Some(plain(Fault::EmptyArray))
            } else if v.contains(0) {
                Some(plain(Fault::HasZero))
            } else {
                None
            },
        }
    }
}

impl PositiveSpec {
    pub open spec fn view(&self) -> PositiveView {
        match self {
            PositiveSpec::Single(n) => PositiveView::Single(*n),
            PositiveSpec::Multi(v) => PositiveView::Multi(v@),
        }
    }

    /// The numbers, ascending and each once.
    pub fn values(&self) -> (r: Vec<u32>)
        ensures
            strictly_ascending(r@),
            forall|n: u32| #[trigger] r@.contains(n) == self@.has(n),
            r@ == number_listing(self@),
    {
        let r = self.listed();
        proof {
            assert(strictly_ascending(r@) && (forall|n: u32| #[trigger] r@.contains(n) == self@.has(n)));
            ascending_numbers_unique(number_listing(self@), r@);
        }
        r
    }

    fn listed(&self) -> (r: Vec<u32>)
        ensures
            strictly_ascending(r@),
            forall|n: u32| #[trigger] r@.contains(n) == self@.has(n),
    {
        match self {
            PositiveSpec::Single(n) => {
                let mut r: Vec<u32> = Vec::new();
                r.push(*n);
                assert(r@[0] == *n);
                r
            },
            PositiveSpec::Multi(v) => distinct_numbers(v),
        }
    }

    /// Whether all numbers are positive and there is at least one.
    pub fn validate(&self, field_name: &str) -> (r: Result<(), SpecError>)
        ensures
            match r {
                Ok(()) => self@.flaw() is None,
                Err(e) => self@.flaw() == Some(e.flaw()) && e.field@ == field_name@,
            },
    {
        match self {
            PositiveSpec::Single(n) => if *n == 0 {
                Err(plain_error(field_name, Fault::NotPositive))
            } else {
                Ok(())
            },
            PositiveSpec::Multi(v) => {
                if v.len() == 0 {
                    return Err(plain_error(field_name, Fault::EmptyArray));
                }
                for i in 0..v.len()
                    invariant
                        forall|j: int| 0 <= j < i ==> v@[j] != 0,
                        v@.len() > 0,
                        self@ == PositiveView::Multi(v@),
                {
                    if v[i] == 0 {
                        assert(v@.contains(0u32));
                        return Err(plain_error(field_name, Fault::HasZero));
                    }
                }
                Ok(())
            },
        }
    }
}

// ---------------------------------------------------------------------
// Reading numbers
// ---------------------------------------------------------------------

/// The largest number of so many bits.
pub open spec fn largest(bits: u8) -> int {
    if bits == 8 {
        u8::MAX as int
    } else {
        u32::MAX as int
    }
}

/// The numbers of an array, all of which fit in so many bits; the first element that
/// is no such number is the flaw.
pub open spec fn numbers(items: Seq<ItemView>, bits: u8) -> Result<Seq<u32>, Flaw>
    decreases items.len(),
{
    if items.len() == 0 {
        Ok(Seq::empty())
    } else {
        match numbers(items.drop_last(), bits) {
            Err(e) => Err(e),
            Ok(v) => match items.last() {
                ItemView::Integer(n) => if 0 <= n <= largest(bits) {
                    Ok(v.push(n as u32))
                } else {
                    Err(plain(Fault::TooWide { n, bits }))
                },
                other => Err(Flaw { fault: Fault::NotInteger, shown: other.debug() }),
            },
        }
    }
}

proof fn numbers_flaw_stays(items: Seq<ItemView>, bits: u8, n: int)
    requires
        0 <= n <= items.len(),
        numbers(items.take(n), bits) is Err,
    ensures
        numbers(items, bits) == numbers(items.take(n), bits),
    decreases items.len(),
{
    if n < items.len() {
        assert(items.drop_last().take(n) =~= items.take(n));
        numbers_flaw_stays(items.drop_last(), bits, n);
    } else {
        assert(items.take(n) =~= items);
    }
}

fn read_numbers(field: &str, items: &Vec<TomlItem>, bits: u8) -> (r: Result<Vec<u32>, SpecError>)
    requires
        bits == 8 || bits == 32,
    ensures
        match r {
            Ok(v) => numbers(item_views(items@), bits) == Ok::<Seq<u32>, Flaw>(v@),
            Err(e) => numbers(item_views(items@), bits) == Err::<Seq<u32>, Flaw>(e.flaw()) && e.field@
                == field@,
        },
{
    let mut out: Vec<u32> = Vec::new();
    let ghost views = item_views(items@);
    let top: i64 = if bits == 8 { u8::MAX as i64 } else { u32::MAX as i64 };
    for i in 0..items.len()
        invariant
            views == item_views(items@),
            top == largest(bits),
            numbers(views.take(i as int), bits) == Ok::<Seq<u32>, Flaw>(out@),
    {
        proof {
            assert(views.take(i + 1).drop_last() =~= views.take(i as int));
            assert(views.take(i + 1).last() == items@[i as int]@);
        }
        match &items[i] {
            TomlItem::Integer(n) => {
                if 0 <= *n && *n <= top {
                    out.push(*n as u32);
                } else {
                    proof {
                        numbers_flaw_stays(views, bits, i + 1);
                    }
                    return Err(plain_error(field, Fault::TooWide { n: *n, bits }));
                }
            },
            other => {
                proof {
                    numbers_flaw_stays(views, bits, i + 1);
                }
                return Err(
                    SpecError {
                        field: field.to_owned(),
                        fault: Fault::NotInteger,
                        shown: item_debug(other),
                    },
                );
            },
        }
    }
    assert(views.take(views.len() as int) =~= views);
    Ok(out)
}

/// The result with the flaw of its content put first.
pub open spec fn unless_flawed<T>(value: T, flaw: Option<Flaw>) -> Result<T, Flaw> {
    match flaw {
        Some(f) => Err(f),
        None => Ok(value),
    }
}

/// What a value says of a positive setting.
pub open spec fn positive_reading(v: ValueView) -> Result<PositiveView, Flaw> {
    match v {
        ValueView::Integer(n) => if 0 <= n <= u32::MAX {
            let view = PositiveView::Single(n as u32);
            unless_flawed(view, view.flaw())
        } else {
            Err(plain(Fault::TooWide { n, bits: 32 }))
        },
        ValueView::Array { items, rendered } => match numbers(items, 32) {
            Ok(ns) => {
                let view = PositiveView::Multi(ns);
                unless_flawed(view, view.flaw())
            },
            Err(e) => Err(e),
        },
        other => Err(Flaw { fault: Fault::WrongType, shown: other.debug() }),
    }
}

/// Reads a positive setting.
pub fn parse_positive_spec(field_name: &str, val: &TomlValue) -> (r: Result<PositiveSpec, SpecError>)
    ensures
        match r {
            Ok(s) => positive_reading(val@) == Ok::<PositiveView, Flaw>(s@),
            Err(e) => positive_reading(val@) == Err::<PositiveView, Flaw>(e.flaw()) && e.field@
                == field_name@,
        },
{
    let spec = match val {
        TomlValue::Integer(n) => if 0 <= *n && *n <= u32::MAX as i64 {
            PositiveSpec::Single(*n as u32)
        } else {
            return Err(plain_error(field_name, Fault::TooWide { n: *n, bits: 32 }));
        },
        TomlValue::Array { items, rendered } => match read_numbers(field_name, items, 32) {
            Ok(v) => PositiveSpec::Multi(v),
            Err(e) => return Err(e),
        },
        other => return Err(
            SpecError {
                field: field_name.to_owned(),
                fault: Fault::WrongType,
                shown: value_debug(other),
            },
        ),
    };
    match spec.validate(field_name) {
        Ok(()) => Ok(spec),
        Err(e) => Err(e),
    }
}

/// The numbers as levels.
pub open spec fn as_levels(ns: Seq<u32>) -> Seq<u8> {
    Seq::new(ns.len(), |i: int| ns[i] as u8)
}

/// What a value, if there is one, says of the quality of service levels.
pub open spec fn qos_reading(v: Option<ValueView>) -> Result<QosView, Flaw> {
    match v {
        None => Ok(QosView::All),
        Some(ValueView::Integer(n)) => if 0 <= n <= u8::MAX {
            let view = QosView::Single(n as u8);
            unless_flawed(view, view.flaw())
        } else {
            Err(plain(Fault::TooWide { n, bits: 8 }))
        },
        Some(ValueView::Array { items, rendered }) => match numbers(items, 8) {
            Ok(ns) => {
                let view = QosView::Multi(as_levels(ns));
                unless_flawed(view, view.flaw())
            },
            Err(e) => Err(e),
        },
        Some(other) => Err(Flaw { fault: Fault::WrongQosType, shown: other.debug() }),
    }
}

/// What an optional value is.
pub open spec fn optional_view(v: Option<&TomlValue>) -> Option<ValueView> {
    match v {
        Some(v) => Some(v@),
        None => None,
    }
}

/// Reads the quality of service levels.
pub fn parse_qos_spec(val: Option<&TomlValue>) -> (r: Result<QosSpec, SpecError>)
    ensures
        match r {
            Ok(s) => qos_reading(optional_view(val)) == Ok::<QosView, Flaw>(s@),
            Err(e) => qos_reading(optional_view(val)) == Err::<QosView, Flaw>(e.flaw()) && e.field@
                == "qos"@,
        },
{
    let spec = match val {
        None => return Ok(QosSpec::All),
        Some(TomlValue::Integer(n)) => if 0 <= *n && *n <= u8::MAX as i64 {
            QosSpec::Single(*n as u8)
        } else {
            return Err(plain_error("qos", Fault::TooWide { n: *n, bits: 8 }));
        },
        Some(TomlValue::Array { items, rendered }) => match read_numbers("qos", items, 8) {
            Ok(v) => {
                let mut levels: Vec<u8> = Vec::new();
                for i in 0..v.len()
                    invariant
                        levels@ == as_levels(v@).take(i as int),
                {
                    #[verifier::truncate]
                    let level = v[i] as u8;
                    levels.push(level);
                    assert(levels@ =~= as_levels(v@).take(i + 1));
                }
                assert(levels@ =~= as_levels(v@));
                QosSpec::Multi(levels)
            },
            Err(e) => return Err(e),
        },
        Some(other) => return Err(
            SpecError {
                field: "qos".to_owned(),
                fault: Fault::WrongQosType,
                shown: value_debug(other),
            },
        ),
    };
    match spec.validate() {
        Ok(()) => Ok(spec),
        Err(e) => Err(e),
    }
}

/// The numbers of a setting in ascending order.
pub open spec fn number_listing(view: PositiveView) -> Seq<u32> {
    choose|s: Seq<u32>| strictly_ascending(s) && (forall|n: u32| #[trigger] s.contains(n) == view.has(n))
}

/// The levels of a setting in ascending order.
pub open spec fn level_listing(view: QosView) -> Seq<u8> {
    choose|s: Seq<u8>| levels_ascending(s) && (forall|n: u8| #[trigger] s.contains(n) == view.has(n))
}

proof fn number_listing_exists(v: Seq<u32>)
    ensures
        exists|s: Seq<u32>|
            strictly_ascending(s) && (forall|n: u32| #[trigger] s.contains(n) == v.contains(n)),
    decreases v.len(),
{
    if v.len() == 0 {
        let s: Seq<u32> = Seq::empty();
        assert(strictly_ascending(s) && (forall|n: u32| #[trigger] s.contains(n) == v.contains(n)));
    } else {
        let t = v.drop_last();
        let x = v.last();
        number_listing_exists(t);
        let s = choose|s: Seq<u32>|
            strictly_ascending(s) && (forall|n: u32| #[trigger] s.contains(n) == t.contains(n));
        let r = with_number(s, x);
        with_number_facts(s, x);
        assert forall|n: u32| #[trigger] r.contains(n) == v.contains(n) by {
            assert(s.contains(n) == t.contains(n));
            if t.contains(n) {
                let i = choose|i: int| 0 <= i < t.len() && t[i] == n;
                assert(v[i] == n);
            }
            if n == x {
                assert(v[v.len() - 1] == n);
            }
            if v.contains(n) && n != x {
                let i = choose|i: int| 0 <= i < v.len() && v[i] == n;
                assert(t[i] == n);
            }
        }
        assert(strictly_ascending(r) && (forall|n: u32| #[trigger] r.contains(n) == v.contains(n)));
    }
}

spec fn with_number(s: Seq<u32>, x: u32) -> Seq<u32>
    decreases s.len(),
{
    if s.len() == 0 || s.last() < x {
        s.push(x)
    } else if s.last() == x {
        s
    } else {
        with_number(s.drop_last(), x).push(s.last())
    }
}

proof fn with_number_facts(s: Seq<u32>, x: u32)
    requires
        strictly_ascending(s),
    ensures
        strictly_ascending(with_number(s, x)),
        forall|n: u32| #[trigger] with_number(s, x).contains(n) == (s.contains(n) || n == x),
    decreases s.len(),
{
    let r = with_number(s, x);
    if s.len() == 0 || s.last() < x {
        assert forall|n: u32| #[trigger] r.contains(n) == (s.contains(n) || n == x) by {
            if s.contains(n) {
                let i = choose|i: int| 0 <= i < s.len() && s[i] == n;
                assert(r[i] == n);
            }
            if n == x {
                assert(r[s.len() as int] == n);
            }
            if r.contains(n) && n != x {
                let i = choose|i: int| 0 <= i < r.len() && r[i] == n;
                assert(s[i] == n);
            }
        }
    } else if s.last() == x {
        assert(s[s.len() - 1] == x);
    } else {
        let t = s.drop_last();
        let u = with_number(t, x);
        with_number_facts(t, x);
        assert forall|i: int| 0 <= i < u.len() implies u[i] < s.last() by {
            assert(u.contains(u[i]));
            if t.contains(u[i]) {
                let j = choose|j: int| 0 <= j < t.len() && t[j] == u[i];
                assert(s[j] < s[s.len() - 1]);
            }
        }
        assert forall|n: u32| #[trigger] r.contains(n) == (s.contains(n) || n == x) by {
            assert(u.contains(n) == (t.contains(n) || n == x));
            if u.contains(n) {
                let i = choose|i: int| 0 <= i < u.len() && u[i] == n;
                assert(r[i] == n);
            }
            if t.contains(n) {
                let i = choose|i: int| 0 <= i < t.len() && t[i] == n;
                assert(s[i] == n);
            }
            if n == s.last() {
                assert(r[u.len() as int] == n);
                assert(s[s.len() - 1] == n);
            }
            if r.contains(n) && n != s.last() {
                let i = choose|i: int| 0 <= i < r.len() && r[i] == n;
                assert(u[i] == n);
            }
            if s.contains(n) && n != s.last() {
                let i = choose|i: int| 0 <= i < s.len() && s[i] == n;
                assert(t[i] == n);
            }
        }
    }
}

/// The listing of a positive setting is ascending and holds just its numbers.
pub proof fn number_listing_facts(view: PositiveView)
    ensures
        strictly_ascending(number_listing(view)),
        forall|n: u32| #[trigger] number_listing(view).contains(n) == view.has(n),
{
    let v = match view {
        PositiveView::Single(m) => seq![m],
        PositiveView::Multi(v) => v,
    };
    number_listing_exists(v);
    let s = choose|s: Seq<u32>|
        strictly_ascending(s) && (forall|n: u32| #[trigger] s.contains(n) == v.contains(n));
    assert forall|n: u32| #[trigger] s.contains(n) == view.has(n) by {
        match view {
            PositiveView::Single(m) => {
                assert(v[0] == m);
            },
            _ => {},
        }
    }
    assert(strictly_ascending(s) && (forall|n: u32| #[trigger] s.contains(n) == view.has(n)));
}

/// The listing of the quality of service levels is ascending and holds just the levels.
pub proof fn level_listing_facts(view: QosView)
    ensures
        levels_ascending(level_listing(view)),
        forall|n: u8| #[trigger] level_listing(view).contains(n) == view.has(n),
{
    let v: Seq<u8> = match view {
        QosView::Single(m) => seq![m],
        QosView::Multi(v) => v,
        QosView::All => seq![1u8, 2u8, 3u8, 4u8],
    };
    assert forall|n: u8| #[trigger] v.contains(n) == view.has(n) by {
        match view {
            QosView::Single(m) => {
                assert(v[0] == m);
            },
            QosView::Multi(_) => {},
            QosView::All => {
                assert(v[0] == 1 && v[1] == 2 && v[2] == 3 && v[3] == 4);
                if 1 <= n <= 4 {
                    assert(v[n - 1] == n);
                }
            },
        }
    }
    let wide = Seq::new(v.len(), |i: int| v[i] as u32);
    number_listing_exists(wide);
    let w = choose|w: Seq<u32>|
        strictly_ascending(w) && (forall|n: u32| #[trigger] w.contains(n) == wide.contains(n));
    assert forall|i: int| 0 <= i < w.len() implies (#[trigger] w[i]) <= u8::MAX by {
        assert(w.contains(w[i]));
        let j = choose|j: int| 0 <= j < wide.len() && wide[j] == w[i];
        assert(v[j] as u32 == w[i]);
    }
    let s = Seq::new(w.len(), |i: int| w[i] as u8);
    assert forall|n: u8| #[trigger] s.contains(n) == view.has(n) by {
        assert(v.contains(n) == view.has(n));
        assert(w.contains(n as u32) == wide.contains(n as u32));
        if s.contains(n) {
            let i = choose|i: int| 0 <= i < s.len() && s[i] == n;
            assert(w[i] == n as u32);
            assert(w.contains(n as u32));
            let j = choose|j: int| 0 <= j < wide.len() && wide[j] == n as u32;
            assert(v[j] == n);
        }
        if v.contains(n) {
            let i = choose|i: int| 0 <= i < v.len() && v[i] == n;
            assert(wide[i] == n as u32);
            let j = choose|j: int| 0 <= j < w.len() && w[j] == n as u32;
            assert(s[j] == n);
        }
    }
    assert(levels_ascending(s)) by {
        assert forall|i: int, j: int| 0 <= i < j < s.len() implies s[i] < s[j] by {
            assert(w[i] < w[j]);
        }
    }
    assert(levels_ascending(s) && (forall|n: u8| #[trigger] s.contains(n) == view.has(n)));
}

/// Two ascending sequences of the same numbers are the same sequence.
pub proof fn ascending_numbers_unique(a: Seq<u32>, b: Seq<u32>)
    requires
        strictly_ascending(a),
        strictly_ascending(b),
        forall|n: u32| #[trigger] a.contains(n) == b.contains(n),
    ensures
        a == b,
    decreases a.len(),
{
    if a.len() == 0 {
        if b.len() > 0 {
            assert(b.contains(b[0]));
            assert(a.contains(b[0]));
        }
        assert(a =~= b);
    } else {
        assert(a.contains(a.last()));
        assert(b.contains(a.last()));
        assert(b.contains(b.last()));
        assert(a.contains(b.last()));
        assert(a.last() == b.last());
        let x = a.drop_last();
        let y = b.drop_last();
        assert forall|n: u32| #[trigger] x.contains(n) == y.contains(n) by {
            if x.contains(n) {
                let i = choose|i: int| 0 <= i < x.len() && x[i] == n;
                assert(a[i] == n);
                assert(a.contains(n));
                assert(a[i] < a[a.len() - 1]);
                let j = choose|j: int| 0 <= j < b.len() && b[j] == n;
                assert(y[j] == n);
            }
            if y.contains(n) {
                let i = choose|i: int| 0 <= i < y.len() && y[i] == n;
                assert(b[i] == n);
                assert(b.contains(n));
                assert(a.contains(n));
                assert(b[i] < b[b.len() - 1]);
                let j = choose|j: int| 0 <= j < a.len() && a[j] == n;
                assert(x[j] == n);
            }
        }
        ascending_numbers_unique(x, y);
        assert(a =~= x.push(a.last()));
        assert(b =~= y.push(b.last()));
    }
}

/// Two ascending sequences of the same levels are the same sequence.
pub proof fn ascending_levels_unique(a: Seq<u8>, b: Seq<u8>)
    requires
        levels_ascending(a),
        levels_ascending(b),
        forall|n: u8| #[trigger] a.contains(n) == b.contains(n),
    ensures
        a == b,
{
    let x = Seq::new(a.len(), |i: int| a[i] as u32);
    let y = Seq::new(b.len(), |i: int| b[i] as u32);
    assert forall|n: u32| #[trigger] x.contains(n) == y.contains(n) by {
        if x.contains(n) {
            let i = choose|i: int| 0 <= i < x.len() && x[i] == n;
            assert(a.contains(a[i]));
            assert(b.contains(a[i]));
            let j = choose|j: int| 0 <= j < b.len() && b[j] == a[i];
            assert(y[j] == n);
        }
        if y.contains(n) {
            let i = choose|i: int| 0 <= i < y.len() && y[i] == n;
            assert(b.contains(b[i]));
            assert(a.contains(b[i]));
            let j = choose|j: int| 0 <= j < a.len() && a[j] == b[i];
            assert(x[j] == n);
        }
    }
    ascending_numbers_unique(x, y);
    assert(a.len() == x.len() && b.len() == y.len());
    assert forall|i: int| 0 <= i < a.len() implies a[i] == b[i] by {
        assert(x[i] == y[i]);
    }
    assert(a =~= b);
}

// ---------------------------------------------------------------------
// Threading modes
// ---------------------------------------------------------------------

/// How a variant runs its threads.
#[derive(Debug, Clone, Copy, PartialEq, Eq, Structural)]
pub enum ThreadingMode {
    Single,
    Multi,
}

impl ThreadingMode {
    /// The word for the mode.
    pub open spec fn word(self) -> Seq<char> {
        match self {
            ThreadingMode::Single => "single"@,
            ThreadingMode::Multi => "multi"@,
        }
    }

    /// The word for the mode.
    pub fn as_str(self) -> (r: &'static str)
        ensures
            r@ == self.word(),
    {
        match self {
            ThreadingMode::Single => "single",
            ThreadingMode::Multi => "multi",
        }
    }

    /// The mode that a word names.
    pub open spec fn named(word: Seq<char>) -> Option<ThreadingMode> {
        if word == "single"@ {
            Some(ThreadingMode::Single)
        } else if word == "multi"@ {
            Some(ThreadingMode::Multi)
        } else {
            None
        }
    }

    /// The mode that a word names, if it names one.
    pub fn from_word(word: &str) -> (r: Option<ThreadingMode>)
        ensures
            r == ThreadingMode::named(word@),
    {
        if same(word, "single") {
            Some(ThreadingMode::Single)
        } else if same(word, "multi") {
            Some(ThreadingMode::Multi)
        } else {
            None
        }
    }
}

/// The threading modes of a variant.
#[derive(Debug, Clone, PartialEq, Eq)]
pub struct ThreadingSpec {
    pub requested: Vec<ThreadingMode>,
}

impl ThreadingSpec {
    /// The modes by their words, each once: first the multi-threaded one.
    pub open spec fn listing(v: Seq<ThreadingMode>) -> Seq<ThreadingMode> {
        let multi = v.contains(ThreadingMode::Multi);
        let single = v.contains(ThreadingMode::Single);
        if multi && single {
            seq![ThreadingMode::Multi, ThreadingMode::Single]
        } else if multi {
            seq![ThreadingMode::Multi]
        } else if single {
            seq![ThreadingMode::Single]
        } else {
            Seq::empty()
        }
    }

    /// The modes by their words, each once.
    pub fn modes(&self) -> (r: Vec<ThreadingMode>)
        ensures
            r@ == ThreadingSpec::listing(self.requested@),
    {
        let mut r: Vec<ThreadingMode> = Vec::new();
        if has_mode(&self.requested, ThreadingMode::Multi) {
            r.push(ThreadingMode::Multi);
        }
        if has_mode(&self.requested, ThreadingMode::Single) {
            r.push(ThreadingMode::Single);
        }
        assert(r@ =~= ThreadingSpec::listing(self.requested@));
        r
    }
}

/// Whether the mode is among those listed.
pub fn has_mode(v: &Vec<ThreadingMode>, mode: ThreadingMode) -> (r: bool)
    ensures
        r == v@.contains(mode),
{
    for i in 0..v.len()
        invariant
            forall|j: int| 0 <= j < i ==> v@[j] != mode,
    {
        if v[i] == mode {
            return true;
        }
    }
    false
}

/// The modes that words name; the first word that names none is the flaw.
pub open spec fn modes_named(words: Seq<ItemView>) -> Result<Seq<ThreadingMode>, Flaw>
    decreases words.len(),
{
    if words.len() == 0 {
        Ok(Seq::empty())
    } else {
        match modes_named(words.drop_last()) {
            Err(e) => Err(e),
            Ok(v) => match words.last() {
                ItemView::Text(w) => match ThreadingMode::named(w) {
                    Some(m) => Ok(v.push(m)),
                    None => Err(Flaw { fault: Fault::UnknownMode, shown: w }),
                },
                other => Err(Flaw { fault: Fault::NotAWord, shown: other.debug() }),
            },
        }
    }
}

/// The first word that names no mode is the flaw, whatever follows it.
pub proof fn modes_flaw_stays(words: Seq<ItemView>, n: int)
    requires
        0 <= n <= words.len(),
        modes_named(words.take(n)) is Err,
    ensures
        modes_named(words) == modes_named(words.take(n)),
    decreases words.len(),
{
    if n < words.len() {
        assert(words.drop_last().take(n) =~= words.take(n));
        modes_flaw_stays(words.drop_last(), n);
    } else {
        assert(words.take(n) =~= words);
    }
}

/// Each word names one mode.
pub proof fn modes_named_len(words: Seq<ItemView>)
    ensures
        modes_named(words) is Ok ==> modes_named(words)->Ok_0.len() == words.len(),
    decreases words.len(),
{
    if words.len() > 0 {
        modes_named_len(words.drop_last());
    }
}

/// What a value, if there is one, says of the threading modes: without one there is
/// just the single-threaded mode.
pub open spec fn modes_reading(v: Option<ValueView>) -> Result<Seq<ThreadingMode>, Flaw> {
    match v {
        None => Ok(seq![ThreadingMode::Single]),
        Some(ValueView::Text(w)) => match ThreadingMode::named(w) {
            Some(m) => Ok(seq![m]),
            None => Err(Flaw { fault: Fault::UnknownMode, shown: w }),
        },
        Some(ValueView::Array { items, rendered }) => if items.len() == 0 {
            Err(plain(Fault::EmptyArray))
        } else {
            modes_named(items)
        },
        Some(other) => Err(Flaw { fault: Fault::NotAWord, shown: other.debug() }),
    }
}

fn read_modes(field: &str, items: &Vec<TomlItem>) -> (r: Result<Vec<ThreadingMode>, SpecError>)
    ensures
        match r {
            Ok(v) => modes_named(item_views(items@)) == Ok::<Seq<ThreadingMode>, Flaw>(v@),
            Err(e) => modes_named(item_views(items@)) == Err::<Seq<ThreadingMode>, Flaw>(e.flaw())
                && e.field@ == field@,
        },
{
    let mut out: Vec<ThreadingMode> = Vec::new();
    let ghost views = item_views(items@);
    for i in 0..items.len()
        invariant
            views == item_views(items@),
            modes_named(views.take(i as int)) == Ok::<Seq<ThreadingMode>, Flaw>(out@),
    {
        proof {
            assert(views.take(i + 1).drop_last() =~= views.take(i as int));
            assert(views.take(i + 1).last() == items@[i as int]@);
        }
        match &items[i] {
            TomlItem::Text(w) => match ThreadingMode::from_word(w.as_str()) {
                Some(m) => {
                    out.push(m);
                },
                None => {
                    proof {
                        modes_flaw_stays(views, i + 1);
                    }
                    return Err(
                        SpecError {
                            field: field.to_owned(),
                            fault: Fault::UnknownMode,
                            shown: w.clone(),
                        },
                    );
                },
            },
            other => {
                proof {
                    modes_flaw_stays(views, i + 1);
                }
                return Err(
                    SpecError {
                        field: field.to_owned(),
                        fault: Fault::NotAWord,
                        shown: item_debug(other),
                    },
                );
            },
        }
    }
    assert(views.take(views.len() as int) =~= views);
    Ok(out)
}

/// Reads the threading modes of the setting `field`.
pub fn parse_threading_spec(field: &str, val: Option<&TomlValue>) -> (r: Result<ThreadingSpec, SpecError>)
    ensures
        match r {
            Ok(s) => modes_reading(optional_view(val)) == Ok::<Seq<ThreadingMode>, Flaw>(s.requested@),
            Err(e) => modes_reading(optional_view(val)) == Err::<Seq<ThreadingMode>, Flaw>(e.flaw())
                && e.field@ == field@,
        },
{
    let mut requested: Vec<ThreadingMode> = Vec::new();
    match val {
        None => {
            requested.push(ThreadingMode::Single);
            assert(requested@ =~= seq![ThreadingMode::Single]);
        },
        Some(TomlValue::Text(w)) => match ThreadingMode::from_word(w.as_str()) {
            Some(m) => {
                requested.push(m);
                assert(requested@ =~= seq![m]);
            },
            None => return Err(
                SpecError { field: field.to_owned(), fault: Fault::UnknownMode, shown: w.clone() },
            ),
        },
        Some(TomlValue::Array { items, rendered }) => {
            if items.len() == 0 {
                return Err(plain_error(field, Fault::EmptyArray));
            }
            match read_modes(field, items) {
                Ok(v) => {
                    requested = v;
                },
                Err(e) => return Err(e),
            }
        },
        Some(other) => return Err(
            SpecError {
                field: field.to_owned(),
                fault: Fault::NotAWord,
                shown: value_debug(other),
            },
        ),
    }
    Ok(ThreadingSpec { requested })
}

// ---------------------------------------------------------------------
// Receive buffer
// ---------------------------------------------------------------------

/// The size of the receive buffer where none is set, in kilobytes.
pub const DEFAULT_RECV_BUFFER_KB: u32 = 4096;

/// What a value, if there is one, says of the size of the receive buffer.
pub open spec fn recv_buffer_reading(v: Option<ValueView>) -> Result<u32, Flaw> {
    match v {
        None => Ok(DEFAULT_RECV_BUFFER_KB),
        Some(ValueView::Integer(n)) => if 0 <= n <= u32::MAX {
            Ok(n as u32)
        } else {
            Err(plain(Fault::TooWide { n, bits: 32 }))
        },
        Some(other) => Err(Flaw { fault: Fault::NotANumber, shown: other.debug() }),
    }
}

/// Reads the size of the receive buffer.
pub fn parse_recv_buffer(val: Option<&TomlValue>) -> (r: Result<u32, SpecError>)
    ensures
        match r {
            Ok(n) => recv_buffer_reading(optional_view(val)) == Ok::<u32, Flaw>(n),
            Err(e) => recv_buffer_reading(optional_view(val)) == Err::<u32, Flaw>(e.flaw()) && e.field@
                == "recv_buffer_kb"@,
        },
{
    match val {
        None => Ok(DEFAULT_RECV_BUFFER_KB),
        Some(TomlValue::Integer(n)) => if 0 <= *n && *n <= u32::MAX as i64 {
            Ok(*n as u32)
        } else {
            Err(plain_error("recv_buffer_kb", Fault::TooWide { n: *n, bits: 32 }))
        },
        Some(other) => Err(
            SpecError {
                field: "recv_buffer_kb".to_owned(),
                fault: Fault::NotANumber,
                shown: value_debug(other),
            },
        ),
    }
}

// ---------------------------------------------------------------------
// Laws of the settings
// ---------------------------------------------------------------------

proof fn numbers_in_full(items: Seq<ItemView>, bits: u8)
    requires
        bits == 8 || bits == 32,
    ensures
        numbers(items, bits) is Ok <==> forall|i: int|
            0 <= i < items.len() ==> (#[trigger] items[i]) is Integer && 0 <= items[i]->Integer_0 <= (
            if bits == 8 {
                255int
            } else {
                4_294_967_295int
            }),
        numbers(items, bits) is Ok ==> numbers(items, bits)->Ok_0.len() == items.len() && forall|i: int|
            0 <= i < items.len() ==> #[trigger] items[i] == ItemView::Integer(
                numbers(items, bits)->Ok_0[i] as i64,
            ),
    decreases items.len(),
{
    if items.len() > 0 {
        let t = items.drop_last();
        let n = items.len() - 1;
        numbers_in_full(t, bits);
        assert forall|i: int| 0 <= i < n implies t[i] == #[trigger] items[i] by {}
        assert(items[n] == items.last());
        if numbers(t, bits) is Err {
            let i = choose|i: int|
                0 <= i < t.len() && !((#[trigger] t[i]) is Integer && 0 <= t[i]->Integer_0 <= (if bits == 8 {
                    255int
                } else {
                    4_294_967_295int
                }));
            assert(items[i] == t[i]);
        } else {
            assert forall|i: int| 0 <= i < n implies (#[trigger] items[i]) is Integer && 0
                <= items[i]->Integer_0 <= (if bits == 8 {
                255int
            } else {
                4_294_967_295int
            }) by {
                assert(items[i] == t[i]);
            }
            if numbers(items, bits) is Ok {
                assert forall|i: int| 0 <= i < items.len() implies #[trigger] items[i] == ItemView::Integer(
                    numbers(items, bits)->Ok_0[i] as i64,
                ) by {
                    if i < n {
                        assert(items[i] == t[i]);
                    }
                }
            }
        }
    }
}

/// The value is the number `n`, or an array with it.
pub open spec fn gives_number(v: ValueView, n: i64) -> bool {
    match v {
        ValueView::Integer(m) => m == n,
        ValueView::Array { items, .. } => items.contains(ItemView::Integer(n)),
        _ => false,
    }
}

/// Of a setting with positive numbers: it can be used just where it is a positive number of
/// 32 bits or an array that holds at least one element and only such numbers; and then it
/// stands for just the numbers that are there, each once and in ascending order.
pub proof fn positive_setting_in_full(v: ValueView)
    ensures
        positive_reading(v) is Ok <==> match v {
            ValueView::Integer(n) => 1 <= n <= 4_294_967_295,
            ValueView::Array { items, .. } => items.len() > 0 && forall|i: int|
                0 <= i < items.len() ==> (#[trigger] items[i]) is Integer && 1 <= items[i]->Integer_0
                    <= 4_294_967_295,
            _ => false,
        },
        positive_reading(v) is Ok ==> {
            let s = number_listing(positive_reading(v)->Ok_0);
            &&& s.len() > 0
            &&& forall|i: int, j: int| 0 <= i < j < s.len() ==> #[trigger] s[i] < #[trigger] s[j]
            &&& forall|n: u32| #[trigger] s.contains(n) <==> gives_number(v, n as i64)
        },
{
    match v {
        ValueView::Array { items, .. } => {
            numbers_in_full(items, 32);
            if numbers(items, 32) is Ok {
                let ns = numbers(items, 32)->Ok_0;
                if ns.contains(0) {
                    let i = choose|i: int| 0 <= i < ns.len() && ns[i] == 0;
                    assert(items[i] == ItemView::Integer(0));
                }
                if !ns.contains(0) {
                    assert forall|i: int| 0 <= i < items.len() implies (#[trigger] items[i]) is Integer && 1
                        <= items[i]->Integer_0 <= 4_294_967_295 by {
                        assert(items[i] == ItemView::Integer(ns[i] as i64));
                        assert(ns.contains(ns[i]));
                    }
                }
            }
        },
        _ => {},
    }
    if positive_reading(v) is Ok {
        let view = positive_reading(v)->Ok_0;
        number_listing_facts(view);
        let s = number_listing(view);
        assert forall|n: u32| #[trigger] s.contains(n) <==> gives_number(v, n as i64) by {
            match v {
                ValueView::Array { items, .. } => {
                    let ns = numbers(items, 32)->Ok_0;
                    if ns.contains(n) {
                        let i = choose|i: int| 0 <= i < ns.len() && ns[i] == n;
                        assert(items[i] == ItemView::Integer(n as i64));
                    }
                    if items.contains(ItemView::Integer(n as i64)) {
                        let i = choose|i: int| 0 <= i < items.len() && items[i] == ItemView::Integer(n as i64);
                        assert(items[i] == ItemView::Integer(ns[i] as i64));
                        assert(ns[i] == n);
                    }
                },
                _ => {},
            }
        }
        let one = match view {
            PositiveView::Single(m) => m,
            PositiveView::Multi(ns) => ns[0],
        };
        assert(view.has(one));
        assert(s.contains(one));
    }
}

/// Why a setting with positive numbers cannot be used: a single number that is zero or too
/// wide, an empty array, an array with a zero, or a value of another kind.
pub proof fn positive_setting_faults(v: ValueView)
    ensures
        match v {
            ValueView::Integer(n) => {
                &&& n == 0 ==> positive_reading(v) == Err::<PositiveView, Flaw>(plain(Fault::NotPositive))
                &&& n < 0 || n > 4_294_967_295 ==> positive_reading(v) == Err::<PositiveView, Flaw>(
                    plain(Fault::TooWide { n, bits: 32 }),
                )
            },
            ValueView::Array { items, .. } => {
                &&& items.len() == 0 ==> positive_reading(v) == Err::<PositiveView, Flaw>(
                    plain(Fault::EmptyArray),
                )
                &&& items.contains(ItemView::Integer(0)) && (forall|i: int|
                    0 <= i < items.len() ==> (#[trigger] items[i]) is Integer && 0 <= items[i]->Integer_0
                        <= 4_294_967_295) ==> positive_reading(v) == Err::<PositiveView, Flaw>(
                    plain(Fault::HasZero),
                )
            },
            _ => positive_reading(v) is Err && positive_reading(v)->Err_0.fault == Fault::WrongType,
        },
{
    match v {
        ValueView::Array { items, .. } => {
            numbers_in_full(items, 32);
            if numbers(items, 32) is Ok && items.contains(ItemView::Integer(0)) {
                let ns = numbers(items, 32)->Ok_0;
                let i = choose|i: int| 0 <= i < items.len() && items[i] == ItemView::Integer(0);
                assert(items[i] == ItemView::Integer(ns[i] as i64));
                assert(ns[i] == 0);
            }
        },
        _ => {},
    }
}

proof fn bad_level_in_full(v: Seq<u8>)
    ensures
        first_bad_level(v) is None <==> forall|i: int| 0 <= i < v.len() ==> 1 <= #[trigger] v[i] <= 4,
        first_bad_level(v) is Some ==> exists|i: int|
            0 <= i < v.len() && #[trigger] v[i] == first_bad_level(v)->0 && !(1 <= v[i] <= 4),
    decreases v.len(),
{
    if v.len() > 0 {
        let t = v.drop_last();
        let n = v.len() - 1;
        bad_level_in_full(t);
        assert forall|i: int| 0 <= i < n implies t[i] == #[trigger] v[i] by {}
        assert(v[n] == v.last());
        if first_bad_level(t) is Some {
            let i = choose|i: int|
                0 <= i < t.len() && #[trigger] t[i] == first_bad_level(t)->0 && !(1 <= t[i] <= 4);
            assert(v[i] == first_bad_level(v)->0);
        } else {
            assert forall|i: int| 0 <= i < n implies 1 <= #[trigger] v[i] <= 4 by {
                assert(v[i] == t[i]);
            }
        }
    }
}

/// Of the quality of service levels: without a setting there are all four; else it can be
/// used just where it is a number from 1 to 4 or an array with at least one element and
/// only such numbers, and then it stands for just those, each once and in ascending order.
pub proof fn qos_setting_in_full(v: Option<ValueView>)
    ensures
        qos_reading(v) is Ok <==> match v {
            None => true,
            Some(ValueView::Integer(n)) => 1 <= n <= 4,
            Some(ValueView::Array { items, .. }) => items.len() > 0 && forall|i: int|
                0 <= i < items.len() ==> (#[trigger] items[i]) is Integer && 1 <= items[i]->Integer_0 <= 4,
            _ => false,
        },
        qos_reading(v) is Ok ==> {
            let s = level_listing(qos_reading(v)->Ok_0);
            &&& s.len() > 0
            &&& forall|i: int, j: int| 0 <= i < j < s.len() ==> #[trigger] s[i] < #[trigger] s[j]
            &&& forall|n: u8| #[trigger] s.contains(n) <==> (if v is None {
                1 <= n <= 4
            } else {
                gives_number(v->0, n as i64)
            })
        },
{
    match v {
        Some(ValueView::Array { items, .. }) => {
            numbers_in_full(items, 8);
            if numbers(items, 8) is Ok {
                let ns = numbers(items, 8)->Ok_0;
                let ls = as_levels(ns);
                bad_level_in_full(ls);
                assert forall|i: int| 0 <= i < items.len() implies #[trigger] items[i] == ItemView::Integer(
                    ls[i] as i64,
                ) by {
                    assert(items[i] == ItemView::Integer(ns[i] as i64));
                }
                if first_bad_level(ls) is Some {
                    let i = choose|i: int|
                        0 <= i < ls.len() && #[trigger] ls[i] == first_bad_level(ls)->0 && !(1 <= ls[i] <= 4);
                    assert(items[i] == ItemView::Integer(ls[i] as i64));
                } else {
                    assert forall|i: int| 0 <= i < items.len() implies (#[trigger] items[i]) is Integer && 1
                        <= items[i]->Integer_0 <= 4 by {
                        assert(1 <= ls[i] <= 4);
                    }
                }
            }
        },
        _ => {},
    }
    if qos_reading(v) is Ok {
        let view = qos_reading(v)->Ok_0;
        level_listing_facts(view);
        let s = level_listing(view);
        assert forall|n: u8| #[trigger] s.contains(n) <==> (if v is None {
            1 <= n <= 4
        } else {
            gives_number(v->0, n as i64)
        }) by {
            match v {
                Some(ValueView::Array { items, .. }) => {
                    let ns = numbers(items, 8)->Ok_0;
                    let ls = as_levels(ns);
                    if ls.contains(n) {
                        let i = choose|i: int| 0 <= i < ls.len() && ls[i] == n;
                        assert(items[i] == ItemView::Integer(ns[i] as i64));
                        assert(items[i] == ItemView::Integer(n as i64));
                    }
                    if items.contains(ItemView::Integer(n as i64)) {
                        let i = choose|i: int| 0 <= i < items.len() && items[i] == ItemView::Integer(n as i64);
                        assert(items[i] == ItemView::Integer(ns[i] as i64));
                        assert(ls[i] == n);
                    }
                },
                _ => {},
            }
        }
        let one: u8 = match view {
            QosView::Single(m) => m,
            QosView::Multi(ls) => ls[0],
            QosView::All => 1,
        };
        assert(view.has(one));
        assert(s.contains(one));
    }
}

/// The word is that of the mode.
pub open spec fn is_word_of(word: Seq<char>, mode: ThreadingMode) -> bool {
    if mode == ThreadingMode::Single {
        word == "single"@
    } else {
        word == "multi"@
    }
}

/// The two modes have different words.
proof fn words_differ()
    ensures
        "single"@ != "multi"@,
{
    reveal_strlit("single");
    reveal_strlit("multi");
    assert("single"@.len() == 6 && "multi"@.len() == 5);
}

/// Words name modes one by one: they all can be read just where each is the word of a mode,
/// and then they name those modes in the same order.
pub proof fn words_name_modes(words: Seq<ItemView>)
    ensures
        modes_named(words) is Ok <==> forall|i: int|
            0 <= i < words.len() ==> (#[trigger] words[i]) == ItemView::Text("single"@) || words[i]
                == ItemView::Text("multi"@),
        modes_named(words) is Ok ==> modes_named(words)->Ok_0.len() == words.len() && forall|i: int|
            0 <= i < words.len() ==> (#[trigger] words[i]) is Text && is_word_of(
                words[i]->Text_0,
                modes_named(words)->Ok_0[i],
            ),
    decreases words.len(),
{
    words_differ();
    if words.len() > 0 {
        let t = words.drop_last();
        let n = words.len() - 1;
        words_name_modes(t);
        assert forall|i: int| 0 <= i < n implies t[i] == #[trigger] words[i] by {}
        assert(words[n] == words.last());
        if modes_named(t) is Err {
            let i = choose|i: int|
                0 <= i < t.len() && !((#[trigger] t[i]) == ItemView::Text("single"@) || t[i] == ItemView::Text(
                    "multi"@,
                ));
            assert(words[i] == t[i]);
        } else {
            assert forall|i: int| 0 <= i < n implies (#[trigger] words[i]) == ItemView::Text("single"@)
                || words[i] == ItemView::Text("multi"@) by {
                assert(words[i] == t[i]);
            }
            if modes_named(words) is Ok {
                assert forall|i: int| 0 <= i < words.len() implies (#[trigger] words[i]) is Text && is_word_of(
                    words[i]->Text_0,
                    modes_named(words)->Ok_0[i],
                ) by {
                    if i < n {
                        assert(words[i] == t[i]);
                    }
                }
            }
        }
    }
}

/// Of the threading modes: without a setting there is just the single-threaded one; a word
/// or an array of words stands for the modes that it names, the multi-threaded one first
/// and each once; and nothing else can be used.
pub proof fn modes_setting_in_full(v: Option<ValueView>)
    ensures
        modes_reading(v) is Ok <==> match v {
            None => true,
            Some(ValueView::Text(w)) => w == "single"@ || w == "multi"@,
            Some(ValueView::Array { items, .. }) => items.len() > 0 && forall|i: int|
                0 <= i < items.len() ==> (#[trigger] items[i]) == ItemView::Text("single"@) || items[i]
                    == ItemView::Text("multi"@),
            _ => false,
        },
        modes_reading(v) is Ok ==> {
            let s = ThreadingSpec::listing(modes_reading(v)->Ok_0);
            let single = match v {
                None => true,
                Some(ValueView::Text(w)) => w == "single"@,
                Some(ValueView::Array { items, .. }) => items.contains(ItemView::Text("single"@)),
                _ => false,
            };
            let multi = match v {
                None => false,
                Some(ValueView::Text(w)) => w == "multi"@,
                Some(ValueView::Array { items, .. }) => items.contains(ItemView::Text("multi"@)),
                _ => false,
            };
            &&& single && multi ==> s == seq![ThreadingMode::Multi, ThreadingMode::Single]
            &&& single && !multi ==> s == seq![ThreadingMode::Single]
            &&& !single && multi ==> s == seq![ThreadingMode::Multi]
            &&& single || multi
        },
{
    words_differ();
    match v {
        None => {
            let one = seq![ThreadingMode::Single];
            assert(one[0] == ThreadingMode::Single);
        },
        Some(ValueView::Text(w)) => {
            match ThreadingMode::named(w) {
                Some(m) => {
                    let one = seq![m];
                    assert(one[0] == m);
                },
                None => {},
            }
        },
        Some(ValueView::Array { items, .. }) => {
            words_name_modes(items);
            if modes_reading(v) is Ok {
                let ms = modes_named(items)->Ok_0;
                if items.contains(ItemView::Text("single"@)) {
                    let i = choose|i: int| 0 <= i < items.len() && items[i] == ItemView::Text("single"@);
                    assert(is_word_of(items[i]->Text_0, ms[i]));
                    assert(ms[i] == ThreadingMode::Single);
                }
                if items.contains(ItemView::Text("multi"@)) {
                    let i = choose|i: int| 0 <= i < items.len() && items[i] == ItemView::Text("multi"@);
                    assert(is_word_of(items[i]->Text_0, ms[i]));
                    assert(ms[i] == ThreadingMode::Multi);
                }
                if ms.contains(ThreadingMode::Single) {
                    let i = choose|i: int| 0 <= i < ms.len() && ms[i] == ThreadingMode::Single;
                    assert(items[i] is Text && is_word_of(items[i]->Text_0, ms[i]));
                    assert(items[i] == ItemView::Text("single"@));
                }
                if ms.contains(ThreadingMode::Multi) {
                    let i = choose|i: int| 0 <= i < ms.len() && ms[i] == ThreadingMode::Multi;
                    assert(items[i] is Text && is_word_of(items[i]->Text_0, ms[i]));
                    assert(items[i] == ItemView::Text("multi"@));
                }
                assert(items[0] == ItemView::Text("single"@) || items[0] == ItemView::Text("multi"@));
            }
        },
        _ => {},
    }
}

/// Of the receive buffer: 4096 where it is not set, else the number that is set, which must
/// not be negative and must fit in 32 bits.
pub proof fn buffer_setting_in_full(v: Option<ValueView>)
    ensures
        v is None ==> recv_buffer_reading(v) == Ok::<u32, Flaw>(4096u32),
        v is Some ==> (recv_buffer_reading(v) is Ok <==> v->0 is Integer && 0 <= v->0->Integer_0
            <= 4_294_967_295),
        v is Some && recv_buffer_reading(v) is Ok ==> recv_buffer_reading(v)->Ok_0 == v->0->Integer_0,
{
}

/// Of numbers that do not fit and words that name no mode the error shows the setting and the
/// value.
pub proof fn errors_show_the_value(field: Seq<char>, n: i64, bits: u8, shown: Seq<char>, level: u8)
    ensures
        flaw_text(field, plain(Fault::TooWide { n, bits })) == field + " value "@ + decimal_int(n as int)
            + " does not fit in u"@ + decimal(bits as nat),
        flaw_text(field, plain(Fault::QosRange(level))) == "qos "@ + decimal(level as nat)
            + " is out of range (must be 1..=4)"@,
        flaw_text(field, (Flaw { fault: Fault::UnknownMode, shown })) == field + " value '"@ + shown
            + "' is not 'single' or 'multi'"@,
        flaw_text(field, plain(Fault::Missing)) == field + " is required in [variant.common]"@,
        flaw_text(field, plain(Fault::EmptyArray)) == field + " array must be non-empty"@,
        flaw_text(field, plain(Fault::HasZero)) == field + " array contains 0; all values must be positive"@,
        flaw_text(field, plain(Fault::NotPositive)) == field + " must be a positive integer (got 0)"@,
{
}

/// The first element of an array of numbers that is no number of so many bits is what is wrong
/// with the array: a number that is too wide, or a value that is shown.
pub proof fn first_element_at_fault_is_told(items: Seq<ItemView>, bits: u8, i: int)
    requires
        bits == 8 || bits == 32,
        0 <= i < items.len(),
        forall|j: int|
            0 <= j < i ==> (#[trigger] items[j]) is Integer && 0 <= items[j]->Integer_0 <= (if bits == 8 {
                255int
            } else {
                4_294_967_295int
            }),
    ensures
        match items[i] {
            ItemView::Integer(n) => n < 0 || n > (if bits == 8 {
                255int
            } else {
                4_294_967_295int
            }) ==> numbers(items, bits) is Err && numbers(items, bits)->Err_0.fault == (Fault::TooWide {
                n,
                bits,
            }),
            ItemView::Text(s) => numbers(items, bits) is Err && numbers(items, bits)->Err_0.fault
                == Fault::NotInteger && numbers(items, bits)->Err_0.shown == "String("@ + debug_text(s)
                + ")"@,
            ItemView::Other(s) => numbers(items, bits) is Err && numbers(items, bits)->Err_0.fault
                == Fault::NotInteger && numbers(items, bits)->Err_0.shown == s,
        },
{
    let t = items.take(i);
    let u = items.take(i + 1);
    numbers_in_full(t, bits);
    assert forall|j: int| 0 <= j < t.len() implies t[j] == #[trigger] items[j] by {}
    assert(numbers(t, bits) is Ok);
    assert(u.drop_last() =~= t);
    assert(u.last() == items[i]);
    if numbers(u, bits) is Err {
        numbers_flaw_stays(items, bits, i + 1);
    }
}

/// What is wrong with the levels of service, where it is: a number that is too wide or out of
/// range, or an array that is empty or has a number out of range, of which the first is told.
pub proof fn qos_faults_are_told(val: Option<&TomlValue>, r: Result<QosSpec, SpecError>, i: int)
    requires
        call_ensures(parse_qos_spec, (val,), r),
        val is Some,
    ensures
        r is Err ==> r->Err_0.field@ == "qos"@,
        match val->0@ {
            ValueView::Integer(n) => {
                &&& n < 0 || n > 255 ==> r is Err && r->Err_0.fault == (Fault::TooWide { n, bits: 8 })
                &&& n == 0 || 5 <= n <= 255 ==> r is Err && r->Err_0.fault == Fault::QosRange(n as u8)
            },
            ValueView::Array { items, .. } => {
                &&& items.len() == 0 ==> r is Err && r->Err_0.fault == Fault::EmptyArray
                &&& (forall|j: int|
                    0 <= j < items.len() ==> (#[trigger] items[j]) is Integer && 0 <= items[j]->Integer_0
                        <= 255) && 0 <= i < items.len() && !(1 <= items[i]->Integer_0 <= 4) && (forall|j: int|
                    0 <= j < i ==> 1 <= (#[trigger] items[j])->Integer_0 <= 4) ==> r is Err
                    && r->Err_0.fault == Fault::QosRange(items[i]->Integer_0 as u8)
            },
            _ => r is Err && r->Err_0.fault == Fault::WrongQosType && r->Err_0.shown@ == val->0@.debug(),
        },
{
    assert(optional_view(val) == Some(val->0@));
    if let ValueView::Array { items, .. } = val->0@ {
        numbers_in_full(items, 8);
        if numbers(items, 8) is Ok {
            let ns = numbers(items, 8)->Ok_0;
            let v = as_levels(ns);
            assert forall|j: int| 0 <= j < items.len() implies (#[trigger] items[j])->Integer_0 == v[j] by {
                assert(items[j] == ItemView::Integer(ns[j] as i64));
                assert(0 <= items[j]->Integer_0 <= 255);
            }
            if 0 <= i < items.len() && !(1 <= items[i]->Integer_0 <= 4) && (forall|j: int|
                0 <= j < i ==> 1 <= (#[trigger] items[j])->Integer_0 <= 4) {
                assert(items[i]->Integer_0 == v[i]);
                assert forall|j: int| 0 <= j < i implies 1 <= #[trigger] v[j] <= 4 by {
                    assert(items[j]->Integer_0 == v[j]);
                }
                bad_level_at(v, i);
            }
        }
    }
}

proof fn bad_level_at(v: Seq<u8>, i: int)
    requires
        0 <= i < v.len(),
        !(1 <= v[i] <= 4),
        forall|j: int| 0 <= j < i ==> 1 <= #[trigger] v[j] <= 4,
    ensures
        first_bad_level(v) == Some(v[i]),
    decreases v.len(),
{
    let t = v.drop_last();
    if i < t.len() {
        assert(t[i] == v[i]);
        bad_level_at(t, i);
    } else {
        bad_level_in_full(t);
        assert forall|j: int| 0 <= j < t.len() implies 1 <= #[trigger] t[j] <= 4 by {
            assert(t[j] == v[j]);
        }
        assert(v.last() == v[i]);
    }
}

/// What is wrong with the threading modes, where it is: an empty array, or the first word that
/// names no mode, or the first element that is no word.
pub proof fn mode_faults_are_told(
    field: &str,
    val: Option<&TomlValue>,
    r: Result<ThreadingSpec, SpecError>,
    i: int,
)
    requires
        call_ensures(parse_threading_spec, (field, val), r),
        val is Some,
    ensures
        r is Err ==> r->Err_0.field@ == field@,
        match val->0@ {
            ValueView::Text(w) => w != "single"@ && w != "multi"@ ==> r is Err && r->Err_0.fault
                == Fault::UnknownMode && r->Err_0.shown@ == w,
            ValueView::Array { items, .. } => {
                &&& items.len() == 0 ==> r is Err && r->Err_0.fault == Fault::EmptyArray
                &&& 0 <= i < items.len() && items[i] != ItemView::Text("single"@) && items[i]
                    != ItemView::Text("multi"@) && (forall|j: int|
                    0 <= j < i ==> (#[trigger] items[j]) == ItemView::Text("single"@) || items[j]
                        == ItemView::Text("multi"@)) ==> {
                    &&& r is Err
                    &&& items[i] is Text ==> r->Err_0.fault == Fault::UnknownMode && r->Err_0.shown@
                        == items[i]->Text_0
                    &&& !(items[i] is Text) ==> r->Err_0.fault == Fault::NotAWord && r->Err_0.shown@
                        == items[i].debug()
                }
            },
            _ => r is Err && r->Err_0.fault == Fault::NotAWord && r->Err_0.shown@ == val->0@.debug(),
        },
{
    assert(optional_view(val) == Some(val->0@));
    if let ValueView::Array { items, .. } = val->0@ {
        if 0 <= i < items.len() && items[i] != ItemView::Text("single"@) && items[i] != ItemView::Text(
            "multi"@,
        ) && (forall|j: int|
            0 <= j < i ==> (#[trigger] items[j]) == ItemView::Text("single"@) || items[j]
                == ItemView::Text("multi"@)) {
            let t = items.take(i);
            let u = items.take(i + 1);
            assert forall|j: int| 0 <= j < t.len() implies (#[trigger] t[j]) == ItemView::Text("single"@)
                || t[j] == ItemView::Text("multi"@) by {
                assert(t[j] == items[j]);
            }
            words_name_modes(t);
            assert(u.drop_last() =~= t);
            assert(u.last() == items[i]);
            modes_flaw_stays(items, i + 1);
        }
    }
}

/// What is wrong with the size of the buffer, where it is: a number that is too wide, or what
/// is no number, which is shown.
pub proof fn buffer_faults_are_told(val: Option<&TomlValue>, r: Result<u32, SpecError>)
    requires
        call_ensures(parse_recv_buffer, (val,), r),
    ensures
        val is None ==> r is Ok && r->Ok_0 == 4096,
        r is Err ==> r->Err_0.field@ == "recv_buffer_kb"@,
        val is Some ==> match val->0@ {
            ValueView::Integer(n) => if 0 <= n <= 4_294_967_295 {
                r is Ok && r->Ok_0 == n
            } else {
                r is Err && r->Err_0.fault == (Fault::TooWide { n, bits: 32 })
            },
            _ => r is Err && r->Err_0.fault == Fault::NotANumber && r->Err_0.shown@ == val->0@.debug(),
        },
{
}

/// A setting with positive numbers is read as its number or its numbers, and is at fault by
/// its own name.
pub proof fn positive_settings_are_read(
    field: &str,
    val: &TomlValue,
    r: Result<PositiveSpec, SpecError>,
)
    requires
        call_ensures(parse_positive_spec, (field, val), r),
    ensures
        r is Err ==> r->Err_0.field@ == field@,
        r is Ok <==> match val@ {
            ValueView::Integer(n) => 1 <= n <= 4_294_967_295,
            ValueView::Array { items, .. } => items.len() > 0 && forall|i: int|
                0 <= i < items.len() ==> (#[trigger] items[i]) is Integer && 1 <= items[i]->Integer_0
                    <= 4_294_967_295,
            _ => false,
        },
        r is Ok ==> forall|n: u32| #[trigger] r->Ok_0@.has(n) <==> gives_number(val@, n as i64),
{
    positive_setting_in_full(val@);
    if let Ok(s) = r {
        number_listing_facts(s@);
        assert forall|n: u32| #[trigger] s@.has(n) <==> gives_number(val@, n as i64) by {
            assert(number_listing(s@).contains(n) == s@.has(n));
        }
    }
}

/// The levels and the numbers that a setting stands for are listed in ascending order, each
/// once.
pub proof fn settings_are_listed(q: &QosSpec, levels: Vec<u8>, p: &PositiveSpec, values: Vec<u32>)
    requires
        call_ensures(QosSpec::levels, (q,), levels),
        call_ensures(PositiveSpec::values, (p,), values),
    ensures
        forall|i: int, j: int| 0 <= i < j < levels@.len() ==> #[trigger] levels@[i] < #[trigger] levels@[j],
        forall|i: int, j: int| 0 <= i < j < values@.len() ==> #[trigger] values@[i] < #[trigger] values@[j],
        match *q {
            QosSpec::Single(n) => forall|x: u8| #[trigger] levels@.contains(x) <==> x == n,
            QosSpec::Multi(v) => forall|x: u8| #[trigger] levels@.contains(x) <==> v@.contains(x),
            QosSpec::All => forall|x: u8| #[trigger] levels@.contains(x) <==> 1 <= x <= 4,
        },
        match *p {
            PositiveSpec::Single(n) => forall|x: u32| #[trigger] values@.contains(x) <==> x == n,
            PositiveSpec::Multi(v) => forall|x: u32| #[trigger] values@.contains(x) <==> v@.contains(x),
        },
{
}

/// The errors that show a value show it where they say so, and an error about a number that is
/// too wide adds its cause.
pub proof fn errors_show_what_they_got(field: Seq<char>, shown: Seq<char>, n: i64, bits: u8)
    ensures
        flaw_text(field, (Flaw { fault: Fault::NotInteger, shown })) == field
            + " array element is not an integer: "@ + shown,
        flaw_text(field, (Flaw { fault: Fault::WrongType, shown })) == field
            + " must be an integer or an array of integers (got "@ + shown + ")"@,
        flaw_text(field, (Flaw { fault: Fault::WrongQosType, shown })) == field
            + " must be an integer, an array of integers, or omitted (got "@ + shown + ")"@,
        flaw_text(field, (Flaw { fault: Fault::NotAWord, shown })) == field
            + " must be a string or an array of strings (got "@ + shown + ")"@,
        flaw_text(field, (Flaw { fault: Fault::NotANumber, shown })) == field
            + " must be an integer (got "@ + shown + ")"@,
        flaw_full_text(field, plain(Fault::TooWide { n, bits })) == field + " value "@ + decimal_int(
            n as int,
        ) + " does not fit in u"@ + decimal(bits as nat)
            + ": out of range integral type conversion attempted"@,
        flaw_full_text(field, (Flaw { fault: Fault::UnknownMode, shown })) == flaw_text(
            field,
            (Flaw { fault: Fault::UnknownMode, shown }),
        ),
{
}

} // verus!

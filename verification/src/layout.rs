//! The layout a Location binds to the YAML contract: which keys a document
//! must hold, and of what type each.
//!
//! A layout is itself a small YAML document. Every leaf is a key the document
//! must have, and its value names the type: `string`, `integer`, `float`,
//! `boolean`, `table` (a mapping), `array` (a sequence) or `datetime` (a
//! scalar in the ISO 8601 shape a YAML timestamp takes). Keys nest by mapping,
//! and an issue names the dotted path where the document departed. Anything a
//! layout does not name is not the layout's business.

use vstd::prelude::*;
use crate::contract::{
    kind_named, missing_issue, mismatched_issue, not_a_name_message, unknown_kind_message,
    ContractError, IssueView, Kind, Required, ValidationIssue,
};
use crate::text::{chars_of, copy_text, split, split_windows, window_equals};
use crate::value::{load_yaml, scan_fault_text, yaml_documents, Entry, Value};

verus! {

/// The text that stands for an entry's key in a dotted path: the key itself
/// when it is a string, else its `{:?}` rendering.
pub open spec fn key_text(e: Entry) -> Seq<char> {
    match e.key {
        Value::String(s) => s@,
        _ => e.key_debug@,
    }
}

/// The dotted path of `key` under `prefix`.
pub open spec fn child_path(prefix: Seq<char>, key: Seq<char>) -> Seq<char> {
    if prefix.len() == 0 {
        key
    } else {
        prefix + "."@ + key
    }
}

/// The keys a layout mapping requires, by dotted path under `prefix`, in the
/// order the layout names them; or the message that refuses the layout.
pub open spec fn collect_value(v: Value, prefix: Seq<char>) -> Result<Seq<(Seq<char>, Kind)>, Seq<char>>
    decreases v, 0nat,
{
    match v {
        Value::Hash(es) => collect_entries(es@, prefix, es@.len()),
        _ => Ok(Seq::empty()),
    }
}

/// What [`collect_value`] gives for the first `n` entries of a mapping: the
/// keys of each in order, stopping at the first entry that refuses the layout.
pub open spec fn collect_entries(es: Seq<Entry>, prefix: Seq<char>, n: nat) -> Result<Seq<(Seq<char>, Kind)>, Seq<char>>
    decreases es, n,
{
    if n == 0 || n > es.len() {
        Ok(Seq::empty())
    } else {
        match collect_entries(es, prefix, (n - 1) as nat) {
            Err(m) => Err(m),
            Ok(before) => {
                let e = es[n - 1];
                let path = child_path(prefix, key_text(e));
                match e.value {
                    Value::Hash(_) => match collect_value(e.value, path) {
                        Err(m) => Err(m),
                        Ok(inner) => Ok(before + inner),
                    },
                    Value::String(name) => match kind_named(name@) {
                        Some(kind) => Ok(before.push((path, kind))),
                        None => Err(unknown_kind_message(path, name@)),
                    },
                    other => Err(not_a_name_message(path, value_name(other))),
                }
            },
        }
    }
}

/// The message that refuses a layout document that is not a mapping.
pub open spec fn not_a_mapping_message(found: Seq<char>) -> Seq<char> {
    "the layout is "@ + found + "; a layout is a mapping"@
}

/// The keys that the first of `documents` requires, or why it is no layout.
/// No document at all is a layout that requires nothing.
pub open spec fn layout_of_documents(documents: Seq<Value>) -> Result<Seq<(Seq<char>, Kind)>, Seq<char>> {
    if documents.len() == 0 {
        Ok(Seq::empty())
    } else {
        match documents[0] {
            Value::Hash(_) => collect_value(documents[0], Seq::empty()),
            other => Err(not_a_mapping_message(value_name(other))),
        }
    }
}

/// What reading the layout text `text` gives: the keys it requires, or the
/// message that refuses it.
pub open spec fn parsed_layout(text: Seq<char>) -> Result<Seq<(Seq<char>, Kind)>, Seq<char>> {
    match yaml_documents(text) {
        Err(fault) => Err("the layout is not YAML: "@ + scan_fault_text(fault)),
        Ok(documents) => layout_of_documents(documents),
    }
}

/// The index of the first entry whose key is the string `key`.
pub open spec fn find_key(es: Seq<Entry>, key: Seq<char>) -> Option<int>
    decreases es.len(),
{
    if es.len() == 0 {
        None
    } else {
        match find_key(es.drop_last(), key) {
            Some(j) => Some(j),
            None => match es.last().key {
                Value::String(s) => if s@ == key {
                    Some(es.len() - 1)
                } else {
                    None
                },
                _ => None,
            },
        }
    }
}

/// The value under key `key` of `value`, if `value` is a mapping that holds it.
pub open spec fn child(value: Value, key: Seq<char>) -> Option<Value> {
    match value {
        Value::Hash(es) => match find_key(es@, key) {
            Some(j) => Some(es@[j].value),
            None => None,
        },
        _ => None,
    }
}

/// The value reached from `document` by following `keys` in order.
pub open spec fn walk(document: Value, keys: Seq<Seq<char>>) -> Option<Value>
    decreases keys.len(),
{
    if keys.len() == 0 {
        Some(document)
    } else {
        match walk(document, keys.drop_last()) {
            Some(v) => child(v, keys.last()),
            None => None,
        }
    }
}

/// The value of `document` at the dotted `path`.
pub open spec fn value_at(document: Value, path: Seq<char>) -> Option<Value> {
    walk(document, split(path, '.'))
}

/// The issues one required key raises against `document`.
pub open spec fn issues_for(required: (Seq<char>, Kind), document: Value) -> Seq<IssueView> {
    match value_at(document, required.0) {
        None => seq![missing_issue(required.0)],
        Some(v) => if value_holds(required.1, v) {
            Seq::empty()
        } else {
            seq![mismatched_issue(required.0, required.1, value_name(v))]
        },
    }
}

/// Every way `document` departs from the keys `required`, in layout order.
pub open spec fn departures(required: Seq<(Seq<char>, Kind)>, document: Value) -> Seq<IssueView>
    decreases required.len(),
{
    if required.len() == 0 {
        Seq::empty()
    } else {
        departures(required.drop_last(), document) + issues_for(required.last(), document)
    }
}

/// Whether `b` is the byte of an ASCII decimal digit.
pub open spec fn is_digit_byte(b: u8) -> bool {
    48 <= b && b <= 57
}

/// Whether the bytes `b[lo..hi)` exist and are all ASCII digits.
pub open spec fn digits_at(b: Seq<u8>, lo: int, hi: int) -> bool {
    hi <= b.len() && forall|i: int| lo <= i < hi ==> is_digit_byte(b[i])
}

/// Whether `t[i]` and `t[i + 1]` exist and are ASCII digits.
pub open spec fn two_digits(t: Seq<u8>, i: int) -> bool {
    0 <= i && i + 2 <= t.len() && is_digit_byte(t[i]) && is_digit_byte(t[i + 1])
}

/// Where the run of ASCII digits that starts at `i` in `t` ends.
pub open spec fn digit_run_end(t: Seq<u8>, i: int) -> int
    decreases t.len() - i,
{
    if 0 <= i < t.len() && is_digit_byte(t[i]) {
        digit_run_end(t, i + 1)
    } else {
        i
    }
}

/// Whether `b` is a blank: a space or a tab.
pub open spec fn is_blank_byte(b: u8) -> bool {
    b == 32 || b == 9
}

/// Where the run of blanks that starts at `i` in `t` ends.
pub open spec fn blank_run_end(t: Seq<u8>, i: int) -> int
    decreases t.len() - i,
{
    if 0 <= i < t.len() && is_blank_byte(t[i]) {
        blank_run_end(t, i + 1)
    } else {
        i
    }
}

/// A run of blanks ends within the text, no earlier than it starts.
pub proof fn lemma_blank_run_bounds(t: Seq<u8>, i: int)
    requires
        0 <= i <= t.len(),
    ensures
        i <= blank_run_end(t, i) <= t.len(),
    decreases t.len() - i,
{
    if i < t.len() {
        lemma_blank_run_bounds(t, i + 1);
    }
}

/// Where a number of one or two ASCII digits that starts at `i` in `t` ends;
/// `i` itself when there is no digit there.
pub open spec fn short_number_end(t: Seq<u8>, i: int) -> int {
    if 0 <= i < t.len() && is_digit_byte(t[i]) {
        if i + 1 < t.len() && is_digit_byte(t[i + 1]) {
            i + 2
        } else {
            i + 1
        }
    } else {
        i
    }
}

/// Whether `t` from `i` on is a time zone, or nothing: blanks, then `Z` (or
/// `z`) for UTC, or a sign followed by an hour of one or two digits,
/// optionally `:mm`.
pub open spec fn zone_from(t: Seq<u8>, i: int) -> bool {
    let j = blank_run_end(t, i);
    ||| i == t.len()
    ||| (j + 1 == t.len() && (t[j] == 90 || t[j] == 122))
    ||| (j < t.len() && (t[j] == 43 || t[j] == 45) && {
        let h = short_number_end(t, j + 1);
        h > j + 1 && (h == t.len() || (h + 3 == t.len() && t[h] == 58 && two_digits(t, h + 1)))
    })
}

/// Whether `t` is a time of day: an hour of one or two digits, `:mm`,
/// optionally `:ss` and then a fraction `.d...`, followed by a zone or
/// nothing (the time of YAML's timestamp, with the seconds optional).
pub open spec fn time_shape(t: Seq<u8>) -> bool {
    let h = short_number_end(t, 0);
    let m = h + 3;
    &&& h > 0 && h < t.len() && t[h] == 58
    &&& two_digits(t, h + 1)
    &&& {
        ||| zone_from(t, m)
        ||| (m < t.len() && t[m] == 58 && two_digits(t, m + 1) && {
            ||| zone_from(t, m + 3)
            ||| (m + 3 < t.len() && t[m + 3] == 46 && zone_from(t, digit_run_end(t, m + 4)))
        })
    }
}

/// Whether `t` is a time of day after a run of blanks, as it may follow the
/// space that ends a date.
pub open spec fn spaced_time_shape(t: Seq<u8>) -> bool {
    time_shape(t.skip(blank_run_end(t, 0)))
}

/// Whether `b` is the date `YYYY-MM-DD`: the shape of a YAML timestamp's date.
/// The digits are not checked against the calendar.
pub open spec fn date_shape(b: Seq<u8>) -> bool {
    &&& digits_at(b, 0, 4)
    &&& b.len() > 4 && b[4] == 45
    &&& digits_at(b, 5, 7)
    &&& b.len() > 7 && b[7] == 45
    &&& digits_at(b, 8, 10)
}

/// `YYYY-MM-DD`, alone or followed by a time of day after `T`, `t` or blanks
/// that begin with a space: the shape a YAML timestamp takes, read on the
/// UTF-8 bytes of a text. The digits are not checked against the calendar.
pub open spec fn timestamp_bytes(b: Seq<u8>) -> bool {
    &&& date_shape(b)
    &&& {
        ||| b.len() == 10
        ||| ((b[10] == 84 || b[10] == 116) && time_shape(b.skip(11)))
        ||| (b[10] == 32 && spaced_time_shape(b.skip(11)))
    }
}

/// Whether the text `t` has the shape of a YAML timestamp.
pub open spec fn is_timestamp_text(t: Seq<char>) -> bool {
    timestamp_bytes(vstd::utf8::encode_utf8(t))
}

/// Whether `value` is of `kind`.
pub open spec fn value_holds(kind: Kind, value: Value) -> bool {
    match (kind, value) {
        (Kind::String, Value::String(_)) => true,
        (Kind::Integer, Value::Integer(_)) => true,
        (Kind::Float, Value::Real(_)) => true,
        (Kind::Boolean, Value::Boolean(_)) => true,
        (Kind::Table, Value::Hash(_)) => true,
        (Kind::Array, Value::Array(_)) => true,
        (Kind::Datetime, Value::String(t)) => is_timestamp_text(t@),
        _ => false,
    }
}

/// The name a layout would use for `value`.
pub open spec fn value_name(value: Value) -> Seq<char> {
    match value {
        Value::String(t) => if is_timestamp_text(t@) {
            "datetime"@
        } else {
            "string"@
        },
        Value::Integer(_) => "integer"@,
        Value::Real(_) => "float"@,
        Value::Boolean(_) => "boolean"@,
        Value::Hash(_) => "table"@,
        Value::Array(_) => "array"@,
        Value::Null => "null"@,
        Value::Alias(_) => "alias"@,
        Value::BadValue => "nothing"@,
    }
}

/// Whether `value` is of `kind`.
pub fn holds(kind: Kind, value: &Value) -> (r: bool)
    ensures
        r == value_holds(kind, *value),
{
    match (kind, value) {
        (Kind::String, Value::String(_)) => true,
        (Kind::Integer, Value::Integer(_)) => true,
        (Kind::Float, Value::Real(_)) => true,
        (Kind::Boolean, Value::Boolean(_)) => true,
        (Kind::Table, Value::Hash(_)) => true,
        (Kind::Array, Value::Array(_)) => true,
        (Kind::Datetime, Value::String(text)) => is_timestamp(text.as_str()),
        _ => false,
    }
}

/// The name a layout would use for `value`.
pub fn name_of(value: &Value) -> (r: &'static str)
    ensures
        r@ == value_name(*value),
{
    match value {
        Value::String(text) => if is_timestamp(text.as_str()) {
            "datetime"
        } else {
            "string"
        },
        Value::Integer(_) => "integer",
        Value::Real(_) => "float",
        Value::Boolean(_) => "boolean",
        Value::Hash(_) => "table",
        Value::Array(_) => "array",
        Value::Null => "null",
        Value::Alias(_) => "alias",
        Value::BadValue => "nothing",
    }
}

/// Whether the bytes `b[lo..hi)` exist and are all ASCII digits.
fn digits_in(b: &[u8], lo: usize, hi: usize) -> (r: bool)
    requires
        lo <= hi,
    ensures
        r == digits_at(b@, lo as int, hi as int),
{
    if hi > b.len() {
        return false;
    }
    let mut i = lo;
    while i < hi
        invariant
            lo <= i <= hi <= b.len(),
            forall|j: int| lo <= j < i ==> is_digit_byte(b@[j]),
        decreases hi - i,
    {
        if !(48 <= b[i] && b[i] <= 57) {
            return false;
        }
        i = i + 1;
    }
    true
}

/// Whether `t[i]` and `t[i + 1]` exist and are ASCII digits.
fn two_digits_in(t: &[u8], i: usize) -> (r: bool)
    ensures
        r == two_digits(t@, i as int),
{
    i < t.len() && t.len() - i >= 2 && 48 <= t[i] && t[i] <= 57 && 48 <= t[i + 1] && t[i + 1] <= 57
}

/// Where the run of ASCII digits that starts at `i` in `t` ends.
fn digit_run_end_in(t: &[u8], i: usize) -> (r: usize)
    requires
        i <= t.len(),
    ensures
        r as int == digit_run_end(t@, i as int),
        i <= r <= t.len(),
{
    let mut j = i;
    while j < t.len() && 48 <= t[j] && t[j] <= 57
        invariant
            i <= j <= t.len(),
            digit_run_end(t@, i as int) == digit_run_end(t@, j as int),
        decreases t.len() - j,
    {
        j = j + 1;
    }
    j
}

/// Where the run of blanks that starts at `i` in `t` ends.
fn blank_run_end_in(t: &[u8], i: usize) -> (r: usize)
    requires
        i <= t.len(),
    ensures
        r as int == blank_run_end(t@, i as int),
        i <= r <= t.len(),
{
    let mut j = i;
    while j < t.len() && (t[j] == 32 || t[j] == 9)
        invariant
            i <= j <= t.len(),
            blank_run_end(t@, i as int) == blank_run_end(t@, j as int),
        decreases t.len() - j,
    {
        j = j + 1;
    }
    j
}

/// Where a number of one or two digits that starts at `i` in `t` ends.
fn short_number_end_in(t: &[u8], i: usize) -> (r: usize)
    requires
        i <= t.len(),
    ensures
        r as int == short_number_end(t@, i as int),
        i <= r <= t.len(),
{
    if i < t.len() && 48 <= t[i] && t[i] <= 57 {
        if i + 1 < t.len() && 48 <= t[i + 1] && t[i + 1] <= 57 {
            i + 2
        } else {
            i + 1
        }
    } else {
        i
    }
}

/// Whether `t` from `i` on is a time zone, or nothing.
fn zone_in(t: &[u8], i: usize) -> (r: bool)
    requires
        i <= t.len(),
    ensures
        r == zone_from(t@, i as int),
{
    if i == t.len() {
        return true;
    }
    let j = blank_run_end_in(t, i);
    if j == t.len() {
        return false;
    }
    if t.len() - j == 1 && (t[j] == 90 || t[j] == 122) {
        return true;
    }
    if !(t[j] == 43 || t[j] == 45) {
        return false;
    }
    let h = short_number_end_in(t, j + 1);
    h > j + 1 && (h == t.len() || (t.len() - h == 3 && t[h] == 58 && two_digits_in(t, h + 1)))
}

/// Whether `t` is a time of day, optionally with seconds, a fraction and a zone.
fn is_time(t: &[u8]) -> (r: bool)
    ensures
        r == time_shape(t@),
{
    let h = short_number_end_in(t, 0);
    if !(h > 0 && h < t.len() && t[h] == 58 && two_digits_in(t, h + 1)) {
        return false;
    }
    let m = h + 3;
    if zone_in(t, m) {
        return true;
    }
    if !(m < t.len() && t[m] == 58 && two_digits_in(t, m + 1)) {
        return false;
    }
    if zone_in(t, m + 3) {
        return true;
    }
    if !(m + 3 < t.len() && t[m + 3] == 46) {
        return false;
    }
    let end = digit_run_end_in(t, m + 4);
    zone_in(t, end)
}

/// `YYYY-MM-DD`, alone or followed by a time of day after `T`, `t` or blanks
/// that begin with a space: the shape a YAML timestamp takes; the digits are
/// not checked against the calendar.
pub fn is_timestamp(text: &str) -> (r: bool)
    ensures
        r == is_timestamp_text(text@),
{
    let bytes = text.as_bytes();
    let date = digits_in(bytes, 0, 4) && bytes.len() > 4 && bytes[4] == 45 && digits_in(bytes, 5, 7)
        && bytes.len() > 7 && bytes[7] == 45 && digits_in(bytes, 8, 10);
    if !date {
        return false;
    }
    if bytes.len() == 10 {
        return true;
    }
    let rest = vstd::slice::slice_subrange(bytes, 11, bytes.len());
    assert(rest@ =~= bytes@.skip(11));
    if bytes[10] == 84 || bytes[10] == 116 {
        is_time(rest)
    } else if bytes[10] == 32 {
        let start = blank_run_end_in(rest, 0);
        let time = vstd::slice::slice_subrange(rest, start, rest.len());
        assert(time@ =~= rest@.skip(start as int));
        is_time(time)
    } else {
        false
    }
}

/// Once a layout mapping is refused at some entry, the entries after it do not change that.
proof fn lemma_collect_refusal_stays(es: Seq<Entry>, prefix: Seq<char>, n: nat, k: nat)
    requires
        n <= k <= es.len(),
        collect_entries(es, prefix, n) is Err,
    ensures
        collect_entries(es, prefix, k) == collect_entries(es, prefix, n),
    decreases k - n,
{
    if k > n {
        lemma_collect_refusal_stays(es, prefix, n, (k - 1) as nat);
    }
}

/// The text that stands for `e`'s key in a dotted path.
fn entry_key_text(e: &Entry) -> (r: String)
    ensures
        r@ == key_text(*e),
{
    match &e.key {
        Value::String(s) => copy_text(s.as_str()),
        _ => copy_text(e.key_debug.as_str()),
    }
}

/// Whether `new` begins with all of `old`.
pub open spec fn keeps_prefix<T>(old: Seq<T>, new: Seq<T>) -> bool {
    old.len() <= new.len() && new.take(old.len() as int) == old
}

/// Appends to `into` the keys that the layout mapping `mapping` requires under
/// `prefix`, in layout order; refuses a leaf that is not a known type name.
fn collect(mapping: &Value, prefix: &str, into: &mut Vec<Required>) -> (r: Result<(), ContractError>)
    ensures
        match collect_value(*mapping, prefix@) {
            Ok(items) => r is Ok && final(into).deep_view() == old(into).deep_view() + items,
            Err(m) => r matches Err(e) && e.message@ == m && keeps_prefix(
                old(into).deep_view(),
                final(into).deep_view(),
            ),
        },
    decreases mapping,
{
    let entries = match mapping {
        Value::Hash(entries) => entries,
        _ => {
            assert(into.deep_view() =~= old(into).deep_view() + Seq::<(Seq<char>, Kind)>::empty());
            return Ok(());
        },
    };
    let ghost start = into.deep_view();
    let mut i: usize = 0;
    assert(into.deep_view() =~= start + Seq::<(Seq<char>, Kind)>::empty());
    while i < entries.len()
        invariant
            *mapping == Value::Hash(*entries),
            i <= entries.len(),
            start == old(into).deep_view(),
            collect_entries(entries@, prefix@, i as nat) matches Ok(items) && into.deep_view() == start + items,
        decreases entries.len() - i,
    {
        let ghost items = collect_entries(entries@, prefix@, i as nat)->Ok_0;
        let e = &entries[i];
        let key = entry_key_text(e);
        let path = if prefix.is_empty() {
            key
        } else {
            let mut p = copy_text(prefix);
            p.append(".");
            p.append(key.as_str());
            p
        };
        assert(path@ == child_path(prefix@, key_text(entries@[i as int])));
        match &e.value {
            Value::Hash(_) => {
                let ghost before = into.deep_view();
                let inner = collect(&e.value, path.as_str(), into);
                match inner {
                    Ok(()) => {
                        let ghost more = collect_value(entries@[i as int].value, path@)->Ok_0;
                        assert(into.deep_view() =~= start + (items + more));
                    },
                    Err(err) => {
                        proof {
                            lemma_collect_refusal_stays(entries@, prefix@, (i + 1) as nat, entries@.len());
                            assert(before.take(start.len() as int) =~= start);
                            assert(into.deep_view().take(start.len() as int) =~= before.take(start.len() as int));
                        }
                        return Err(err);
                    },
                }
            },
            Value::String(name) => match Kind::named(name.as_str()) {
                Some(kind) => {
                    let ghost before = into.deep_view();
                    into.push(Required { path, kind });
                    assert(into.deep_view() =~= before.push((path@, kind)));
                    assert(into.deep_view() =~= start + items.push((path@, kind)));
                },
                None => {
                    proof {
                        lemma_collect_refusal_stays(entries@, prefix@, (i + 1) as nat, entries@.len());
                    }
                    assert(into.deep_view().take(start.len() as int) =~= start);
                    return Err(Kind::unknown(path.as_str(), name.as_str()));
                },
            },
            other => {
                proof {
                    lemma_collect_refusal_stays(entries@, prefix@, (i + 1) as nat, entries@.len());
                }
                assert(into.deep_view().take(start.len() as int) =~= start);
                return Err(Kind::not_a_name(path.as_str(), name_of(other)));
            },
        }
        i = i + 1;
    }
    Ok(())
}

/// The first entry whose key is a given string stays first in any longer run of entries.
proof fn lemma_find_key_prefix(es: Seq<Entry>, n: int, key: Seq<char>)
    requires
        0 <= n <= es.len(),
        find_key(es.take(n), key) is Some,
    ensures
        find_key(es, key) == find_key(es.take(n), key),
    decreases es.len(),
{
    if n == es.len() {
        assert(es.take(n) =~= es);
    } else {
        assert(es.drop_last().take(n) =~= es.take(n));
        lemma_find_key_prefix(es.drop_last(), n, key);
    }
}

/// A walk that falls off the document stays off it, however many keys follow.
proof fn lemma_walk_stays_off(document: Value, keys: Seq<Seq<char>>, n: int)
    requires
        0 <= n <= keys.len(),
        walk(document, keys.take(n)) is None,
    ensures
        walk(document, keys) is None,
    decreases keys.len(),
{
    if n == keys.len() {
        assert(keys.take(n) =~= keys);
    } else {
        assert(keys.drop_last().take(n) =~= keys.take(n));
        lemma_walk_stays_off(document, keys.drop_last(), n);
    }
}

/// The index of the first entry whose key is the string in window `[a, b)` of `chars`.
fn find_entry(entries: &Vec<Entry>, chars: &Vec<char>, a: usize, b: usize) -> (r: Option<usize>)
    requires
        a <= b <= chars.len(),
    ensures
        match r {
            Some(j) => j < entries.len() && find_key(entries@, chars@.subrange(a as int, b as int))
                == Some(j as int),
            None => find_key(entries@, chars@.subrange(a as int, b as int)) is None,
        },
{
    let ghost key = chars@.subrange(a as int, b as int);
    let mut j: usize = 0;
    assert(entries@.take(0) =~= Seq::<Entry>::empty());
    while j < entries.len()
        invariant
            j <= entries.len(),
            a <= b <= chars.len(),
            key == chars@.subrange(a as int, b as int),
            find_key(entries@.take(j as int), key) is None,
        decreases entries.len() - j,
    {
        assert(entries@.take(j + 1).drop_last() =~= entries@.take(j as int));
        match &entries[j].key {
            Value::String(s) => {
                let candidate = chars_of(s.as_str());
                if window_equals(chars, a, b, &candidate) {
                    proof {
                        lemma_find_key_prefix(entries@, j + 1, key);
                    }
                    return Some(j);
                }
            },
            _ => {},
        }
        j = j + 1;
    }
    assert(entries@.take(j as int) =~= entries@);
    None
}

/// The value of `document` at the dotted `path`, if every key on the way is there.
pub fn lookup<'a>(document: &'a Value, path: &str) -> (r: Option<&'a Value>)
    ensures
        match value_at(*document, path@) {
            Some(v) => r matches Some(x) && *x == v,
            None => r is None,
        },
{
    let chars = chars_of(path);
    let segments = split_windows(&chars, 0, chars.len(), '.');
    let ghost keys = split(path@, '.');
    assert(chars@.subrange(0, chars.len() as int) =~= path@);
    let mut current: &Value = document;
    let mut k: usize = 0;
    assert(keys.take(0) =~= Seq::<Seq<char>>::empty());
    while k < segments.len()
        invariant
            chars@ == path@,
            keys == split(path@, '.'),
            segments.len() == keys.len(),
            forall|q: int|
                0 <= q < segments.len() ==> (#[trigger] segments[q]).0 <= segments[q].1 <= chars.len()
                    && chars@.subrange(segments[q].0 as int, segments[q].1 as int) == keys[q],
            k <= segments.len(),
            walk(*document, keys.take(k as int)) == Some(*current),
        decreases segments.len() - k,
    {
        let (a, b) = segments[k];
        assert(chars@.subrange(a as int, b as int) == keys[k as int]);
        let ghost previous = *current;
        assert(keys.take(k + 1).drop_last() =~= keys.take(k as int));
        assert(keys.take(k + 1).last() == keys[k as int]);
        match current {
            Value::Hash(entries) => match find_entry(entries, &chars, a, b) {
                Some(j) => {
                    current = &entries[j].value;
                    assert(child(previous, keys[k as int]) == Some(*current));
                },
                None => {
                    proof {
                        lemma_walk_stays_off(*document, keys, k + 1);
                    }
                    return None;
                },
            },
            _ => {
                proof {
                    lemma_walk_stays_off(*document, keys, k + 1);
                }
                return None;
            },
        }
        k = k + 1;
    }
    assert(keys.take(k as int) =~= keys);
    Some(current)
}

/// The keys a bound layout requires, in the order the layout names them.
#[derive(Clone, Debug, PartialEq, Eq)]
pub struct Layout {
    required: Vec<Required>,
}

impl View for Layout {
    type V = Seq<(Seq<char>, Kind)>;

    closed spec fn view(&self) -> Seq<(Seq<char>, Kind)> {
        self.required.deep_view()
    }
}

impl Layout {
    /// The layout that the first of `documents` describes, or why it is none.
    pub fn from_documents(documents: &[Value]) -> (r: Result<Layout, ContractError>)
        ensures
            match layout_of_documents(documents@) {
                Ok(keys) => r matches Ok(l) && l@ == keys,
                Err(m) => r matches Err(e) && e.message@ == m,
            },
    {
        let mut required: Vec<Required> = Vec::new();
        assert(required.deep_view() =~= Seq::<(Seq<char>, Kind)>::empty());
        if documents.len() == 0 {
            return Ok(Layout { required });
        }
        match &documents[0] {
            Value::Hash(_) => {
                proof {
                    reveal_strlit("");
                }
                let ghost empty_required = required.deep_view();
                let root: &str = "";
                assert(root@ =~= Seq::<char>::empty());
                match collect(&documents[0], root, &mut required) {
                    Ok(()) => {
                        let l = Layout { required };
                        assert(l@ =~= empty_required + collect_value(documents@[0], root@)->Ok_0);
                        Ok(l)
                    },
                    Err(e) => Err(e),
                }
            },
            other => {
                let mut m = copy_text("the layout is ");
                m.append(name_of(other));
                m.append("; a layout is a mapping");
                Err(ContractError::new(m))
            },
        }
    }

    /// Reads a layout document.
    ///
    /// # Errors
    /// The layout is not YAML, is not a mapping, a leaf is not a type name,
    /// or a name is not one of the seven types.
    pub fn parse(text: &str) -> (r: Result<Layout, ContractError>)
        ensures
            match parsed_layout(text@) {
                Ok(keys) => r matches Ok(l) && l@ == keys,
                Err(m) => r matches Err(e) && e.message@ == m,
            },
    {
        match load_yaml(text) {
            Err(fault) => {
                let mut m = copy_text("the layout is not YAML: ");
                let d = fault.describe();
                m.append(d.as_str());
                Err(ContractError::new(m))
            },
            Ok(documents) => Layout::from_documents(documents.as_slice()),
        }
    }

    /// The keys required, in layout order.
    pub fn required(&self) -> (r: &[Required])
        ensures
            r.deep_view() == self@,
    {
        self.required.as_slice()
    }

    /// Every way `document` departs from the layout: a required key that is
    /// missing, or one of another type than the layout names.
    pub fn check(&self, document: &Value) -> (issues: Vec<ValidationIssue>)
        ensures
            issues.deep_view() == departures(self@, *document),
    {
        let mut issues: Vec<ValidationIssue> = Vec::new();
        let mut i: usize = 0;
        assert(self.required.deep_view().take(0) =~= Seq::<(Seq<char>, Kind)>::empty());
        assert(issues.deep_view() =~= Seq::<IssueView>::empty());
        while i < self.required.len()
            invariant
                i <= self.required.len(),
                issues.deep_view() == departures(self.required.deep_view().take(i as int), *document),
            decreases self.required.len() - i,
        {
            let required = &self.required[i];
            let ghost before = issues.deep_view();
            let ghost keys = self.required.deep_view().take(i + 1);
            assert(keys.drop_last() =~= self.required.deep_view().take(i as int));
            assert(keys.last() == required.deep_view());
            match lookup(document, required.path.as_str()) {
                None => {
                    issues.push(required.missing());
                },
                Some(value) => {
                    if !holds(required.kind, value) {
                        issues.push(required.mismatched(name_of(value)));
                    }
                },
            }
            assert(issues.deep_view() =~= before + issues_for(keys.last(), *document));
            i = i + 1;
        }
        assert(self.required.deep_view().take(i as int) =~= self.required.deep_view());
        issues
    }
}

} // verus!

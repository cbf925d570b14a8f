//! What holds of the contract across its functions.

use vstd::prelude::*;
use crate::contract::{kind_name, kind_named, IssueView, Kind};
use crate::layout::{
    blank_run_end, child, collect_entries, collect_value, key_text, date_shape, departures, digit_run_end, is_digit_byte, short_number_end,
    two_digits, zone_from, spaced_time_shape, find_key, issues_for, time_shape, timestamp_bytes, value_at,
    value_holds, value_name, walk,
};
use crate::text::{
    ends_with, eq_ignore_ascii_case, starts_with, index_of, lemma_split_concat, lemma_split_keeps_case_difference,
    lemma_split_nonempty, lemma_split_without_separator, lemma_trim_keeps_case_difference,
    same_but_ascii_case, split, trim,
};
use crate::value::{Entry, Value};
use crate::{
    first_content_line, is_content_line, key_line, lemma_first_content_prefix, media_essence, verdict_issues,
    yaml_looking, yaml_media,
};

verus! {

/// The names a layout uses begin with distinct characters, but for `alias`
/// and `array`, which part at the second.
proof fn lemma_names_are_distinct()
    ensures
        "string"@.len() > 0 && "string"@[0] == 's',
        "integer"@.len() > 0 && "integer"@[0] == 'i',
        "float"@.len() > 0 && "float"@[0] == 'f',
        "boolean"@.len() > 0 && "boolean"@[0] == 'b',
        "table"@.len() > 0 && "table"@[0] == 't',
        "array"@.len() > 1 && "array"@[0] == 'a' && "array"@[1] == 'r',
        "datetime"@.len() > 0 && "datetime"@[0] == 'd',
        "null"@.len() > 0 && "null"@[0] == 'n',
        "alias"@.len() > 1 && "alias"@[0] == 'a' && "alias"@[1] == 'l',
        "nothing"@.len() > 0 && "nothing"@[0] == 'n',
{
    reveal_strlit("string");
    reveal_strlit("integer");
    reveal_strlit("float");
    reveal_strlit("boolean");
    reveal_strlit("table");
    reveal_strlit("array");
    reveal_strlit("datetime");
    reveal_strlit("null");
    reveal_strlit("alias");
    reveal_strlit("nothing");
}

/// Reading a kind's name gives the kind back.
pub proof fn law_kind_name_round_trip(kind: Kind)
    ensures
        kind_named(kind_name(kind)) == Some(kind),
{
    lemma_names_are_distinct();
}

/// Every YAML value whose layout name is a kind holds that kind; a null, an
/// alias or a bad value has a name that is no kind.
pub proof fn law_value_holds_its_own_kind(value: Value)
    ensures
        kind_named(value_name(value)) matches Some(kind) ==> value_holds(kind, value),
        (value is Null || value is Alias || value is BadValue) ==> kind_named(value_name(value)) is None,
{
    lemma_names_are_distinct();
}

/// A value that holds the datetime kind is a string.
pub proof fn law_datetime_is_a_string(value: Value)
    ensures
        value_holds(Kind::Datetime, value) ==> value_holds(Kind::String, value),
{
}

/// Anything a layout does not name is not the layout's business: two documents
/// that agree at every required path depart from the layout in the same ways.
pub proof fn law_only_required_paths_matter(required: Seq<(Seq<char>, Kind)>, first: Value, second: Value)
    requires
        forall|i: int| 0 <= i < required.len() ==> value_at(first, #[trigger] required[i].0) == value_at(second, required[i].0),
    ensures
        departures(required, first) == departures(required, second),
    decreases required.len(),
{
    if required.len() > 0 {
        let shorter = required.drop_last();
        assert forall|i: int| 0 <= i < shorter.len() implies value_at(first, #[trigger] shorter[i].0) == value_at(second, shorter[i].0) by {
            assert(shorter[i] == required[i]);
        }
        law_only_required_paths_matter(shorter, first, second);
        assert(value_at(first, required[required.len() - 1].0) == value_at(second, required[required.len() - 1].0));
    }
}

/// A document conforms to a layout, with no issue at all, exactly when every
/// required path holds a value of the kind the layout names.
pub proof fn law_conformance(required: Seq<(Seq<char>, Kind)>, document: Value)
    ensures
        departures(required, document).len() == 0 <==> forall|i: int| 0 <= i < required.len() ==> (
        value_at(document, #[trigger] required[i].0) matches Some(v) && value_holds(required[i].1, v)),
    decreases required.len(),
{
    if required.len() > 0 {
        let shorter = required.drop_last();
        law_conformance(shorter, document);
        let last = required[required.len() - 1];
        if departures(required, document).len() == 0 {
            assert forall|i: int| 0 <= i < required.len() implies (value_at(document, #[trigger] required[i].0) matches Some(v)
                && value_holds(required[i].1, v)) by {
                if i < shorter.len() {
                    assert(shorter[i] == required[i]);
                }
            }
        }
        if forall|i: int| 0 <= i < required.len() ==> (value_at(document, #[trigger] required[i].0) matches Some(v)
            && value_holds(required[i].1, v)) {
            assert forall|i: int| 0 <= i < shorter.len() implies (value_at(document, #[trigger] shorter[i].0) matches Some(v)
                && value_holds(shorter[i].1, v)) by {
                assert(shorter[i] == required[i]);
            }
            assert(value_at(document, last.0) matches Some(v) && value_holds(last.1, v));
        }
    }
}

/// Every issue names one of the required paths, and there is at most one issue
/// per required key.
pub proof fn law_issues_name_required_paths(required: Seq<(Seq<char>, Kind)>, document: Value)
    ensures
        departures(required, document).len() <= required.len(),
        forall|j: int| 0 <= j < departures(required, document).len() ==> exists|i: int|
            0 <= i < required.len() && (#[trigger] departures(required, document)[j]).path == Some(required[i].0),
    decreases required.len(),
{
    if required.len() > 0 {
        let shorter = required.drop_last();
        law_issues_name_required_paths(shorter, document);
        let before = departures(shorter, document);
        let last = issues_for(required.last(), document);
        assert forall|j: int| 0 <= j < departures(required, document).len() implies exists|i: int|
            0 <= i < required.len() && (#[trigger] departures(required, document)[j]).path == Some(required[i].0) by {
            if j < before.len() {
                let i = choose|i: int| 0 <= i < shorter.len() && before[j].path == Some(shorter[i].0);
                assert(shorter[i] == required[i]);
                assert(departures(required, document)[j] == before[j]);
            } else {
                assert(departures(required, document)[j] == last[j - before.len()]);
                assert(required[required.len() - 1] == required.last());
            }
        }
    }
}

/// A bare contract is well-formedness alone: every well-formed Stream holds it.
pub proof fn law_bare_contract_holds_well_formed_streams(documents: Seq<Value>)
    ensures
        verdict_issues(None, documents).len() == 0,
{
}

/// Only the first document is held to a layout: Streams whose first documents
/// agree get the same verdict.
pub proof fn law_first_document_is_held(layout: Option<Seq<(Seq<char>, Kind)>>, first: Seq<Value>, second: Seq<Value>)
    requires
        first.len() > 0,
        second.len() > 0,
        first[0] == second[0],
    ensures
        verdict_issues(layout, first) == verdict_issues(layout, second),
{
}

/// A bound contract holds a Stream's documents to its layout: with a first
/// document, there is no issue exactly when every required path of that
/// document holds a value of the named kind; with no document, there is one.
pub proof fn law_bound_contract_conformance(required: Seq<(Seq<char>, Kind)>, documents: Seq<Value>)
    ensures
        documents.len() > 0 ==> (verdict_issues(Some(required), documents).len() == 0 <==> forall|i: int|
            0 <= i < required.len() ==> (value_at(documents[0], #[trigger] required[i].0) matches Some(v)
                && value_holds(required[i].1, v))),
        documents.len() == 0 ==> verdict_issues(Some(required), documents).len() == 1,
{
    if documents.len() > 0 {
        law_conformance(required, documents[0]);
    }
}

/// A key without a dot is a path of one step: it reaches the value under that
/// key of the document's top mapping.
pub proof fn law_plain_key_is_one_step(document: Value, key: Seq<char>)
    requires
        index_of(key, '.') is None,
    ensures
        value_at(document, key) == child(document, key),
{
    crate::text::lemma_split_without_separator(key, '.');
    let keys = split(key, '.');
    assert(keys.drop_last() =~= Seq::<Seq<char>>::empty());
    assert(walk(document, keys.drop_last()) == Some(document));
}


/// A date is a timestamp alone, and followed by one more byte and `rest` it is
/// one exactly when that byte is `T` or `t` and `rest` is a time of day, or
/// that byte is a space and `rest` is a time of day after blanks.
pub proof fn law_date_then_time(date: Seq<u8>, separator: u8, rest: Seq<u8>)
    requires
        date.len() == 10,
        date_shape(date),
    ensures
        timestamp_bytes(date),
        timestamp_bytes(date + seq![separator] + rest) == (((separator == 84 || separator == 116)
            && time_shape(rest)) || (separator == 32 && spaced_time_shape(rest))),
{
    let b = date + seq![separator] + rest;
    assert forall|i: int| 0 <= i < 10 implies b[i] == date[i] by {}
    assert(b[10] == separator);
    assert(b.skip(11) =~= rest);
    assert(date_shape(b));
}

/// What follows the first `;` of a media type, its parameters, does not decide
/// whether it declares YAML.
pub proof fn law_media_parameters_do_not_matter(media_type: Seq<char>, parameters: Seq<char>)
    requires
        index_of(media_type, ';') is None,
    ensures
        yaml_media(media_type + seq![';'] + parameters) == yaml_media(media_type),
{
    lemma_split_concat(media_type, parameters, ';');
    lemma_split_without_separator(media_type, ';');
    assert(split(media_type + seq![';'] + parameters, ';')[0] == media_type);
}

/// The case of ASCII letters does not decide whether a media type declares
/// YAML, but for the case-sensitive `+yaml` suffix.
pub proof fn law_media_letter_case_does_not_matter(first: Seq<char>, second: Seq<char>)
    requires
        same_but_ascii_case(first, second),
        !ends_with(media_essence(first), "+yaml"@),
        !ends_with(media_essence(second), "+yaml"@),
    ensures
        yaml_media(first) == yaml_media(second),
{
    lemma_split_keeps_case_difference(first, second, ';');
    lemma_split_nonempty(first, ';');
    let a = split(first, ';')[0];
    let b = split(second, ';')[0];
    assert(same_but_ascii_case(a, b));
    lemma_trim_keeps_case_difference(a, b);
    let x = trim(a);
    let y = trim(b);
    assert forall|lit: Seq<char>| eq_ignore_ascii_case(x, lit) == eq_ignore_ascii_case(y, lit) by {
        if eq_ignore_ascii_case(x, lit) {
            assert forall|i: int| 0 <= i < y.len() implies crate::text::ascii_lower(y[i]) == crate::text::ascii_lower(lit[i]) by {
                assert(crate::text::ascii_lower(x[i]) == crate::text::ascii_lower(y[i]));
            }
        }
        if eq_ignore_ascii_case(y, lit) {
            assert forall|i: int| 0 <= i < x.len() implies crate::text::ascii_lower(x[i]) == crate::text::ascii_lower(lit[i]) by {
                assert(crate::text::ascii_lower(x[i]) == crate::text::ascii_lower(y[i]));
            }
        }
    }
}

/// Lines that are all blank or comments have no first content line.
proof fn lemma_no_content_line(lines: Seq<Seq<char>>)
    requires
        forall|i: int| 0 <= i < lines.len() ==> !is_content_line(#[trigger] lines[i]),
    ensures
        first_content_line(lines) is None,
    decreases lines.len(),
{
    if lines.len() > 0 {
        let shorter = lines.drop_last();
        assert forall|i: int| 0 <= i < shorter.len() implies !is_content_line(#[trigger] shorter[i]) by {
            assert(shorter[i] == lines[i]);
        }
        lemma_no_content_line(shorter);
        assert(!is_content_line(lines[lines.len() - 1]));
    }
}

/// Leading lines without content do not change the first content line.
proof fn lemma_first_content_after_blank_lines(blank: Seq<Seq<char>>, lines: Seq<Seq<char>>)
    requires
        first_content_line(blank) is None,
    ensures
        first_content_line(blank + lines) == first_content_line(lines),
    decreases lines.len(),
{
    if lines.len() == 0 {
        assert(blank + lines =~= blank);
    } else {
        assert((blank + lines).drop_last() =~= blank + lines.drop_last());
        lemma_first_content_after_blank_lines(blank, lines.drop_last());
    }
}

/// Only the first significant line decides whether text looks like YAML:
/// after lines that are blank or comments, a line with content decides alone,
/// whatever follows it; and blank lines and comments alone do not look like YAML.
pub proof fn law_first_significant_line_decides(lead: Seq<char>, line: Seq<char>, rest: Seq<char>)
    requires
        forall|i: int| 0 <= i < split(lead, '\n').len() ==> !is_content_line(#[trigger] split(lead, '\n')[i]),
        lead.len() == 0 || lead.last() == '\n',
        index_of(line, '\n') is None,
        is_content_line(line),
    ensures
        yaml_looking(lead + line + seq!['\n'] + rest) == yaml_looking(line),
        !yaml_looking(lead),
{
    lemma_no_content_line(split(lead, '\n'));
    lemma_split_without_separator(line, '\n');
    assert(first_content_line(seq![line]) == Some(trim(line))) by {
        assert(seq![line].drop_last() =~= Seq::<Seq<char>>::empty());
        assert(first_content_line(Seq::<Seq<char>>::empty()) is None);
        assert(seq![line].last() == line);
    }
    lemma_split_concat(line, rest, '\n');
    let tail = split(line, '\n') + split(rest, '\n');
    assert(tail.take(1) =~= seq![line]);
    lemma_first_content_prefix(tail, 1);
    if lead.len() == 0 {
        assert(lead + line + seq!['\n'] + rest =~= line + seq!['\n'] + rest);
    } else {
        let head = lead.drop_last();
        assert(lead =~= head + seq!['\n'] + Seq::<char>::empty());
        lemma_split_concat(head, Seq::<char>::empty(), '\n');
        lemma_split_nonempty(head, '\n');
        assert forall|i: int| 0 <= i < split(head, '\n').len() implies !is_content_line(#[trigger] split(head, '\n')[i]) by {
            assert(split(lead, '\n')[i] == split(head, '\n')[i]);
        }
        lemma_no_content_line(split(head, '\n'));
        assert(lead + line + seq!['\n'] + rest =~= head + seq!['\n'] + (line + seq!['\n'] + rest));
        lemma_split_concat(head, line + seq!['\n'] + rest, '\n');
        lemma_first_content_after_blank_lines(split(head, '\n'), tail);
    }
}

/// Where the first entry with a given string key stands, it has that key.
proof fn lemma_find_key_found(es: Seq<Entry>, key: Seq<char>)
    ensures
        find_key(es, key) matches Some(j) ==> 0 <= j < es.len() && (es[j].key matches Value::String(s) && s@ == key),
    decreases es.len(),
{
    if es.len() > 0 {
        lemma_find_key_found(es.drop_last(), key);
        if find_key(es.drop_last(), key) is Some {
            let j = find_key(es.drop_last(), key)->Some_0;
            assert(es.drop_last()[j] == es[j]);
        }
    }
}

/// Whether entry `e` has the string key `key`.
pub open spec fn has_key(e: Entry, key: Seq<char>) -> bool {
    e.key matches Value::String(s) && s@ == key
}

/// Changing entries that do not carry `key` leaves where `key` is found.
proof fn lemma_find_key_update(es: Seq<Entry>, j: int, e: Entry, key: Seq<char>)
    requires
        0 <= j < es.len(),
        !has_key(es[j], key),
        !has_key(e, key),
    ensures
        find_key(es.update(j, e), key) == find_key(es, key),
    decreases es.len(),
{
    let fs = es.update(j, e);
    if j == es.len() - 1 {
        assert(fs.drop_last() =~= es.drop_last());
    } else {
        assert(fs.drop_last() =~= es.drop_last().update(j, e));
        lemma_find_key_update(es.drop_last(), j, e, key);
    }
}

/// A walk takes its first step at the first key.
proof fn lemma_walk_first_step(document: Value, keys: Seq<Seq<char>>)
    requires
        keys.len() > 0,
    ensures
        walk(document, keys) == match child(document, keys[0]) {
            Some(c) => walk(c, keys.drop_first()),
            None => None,
        },
    decreases keys.len(),
{
    if keys.len() == 1 {
        assert(keys.drop_last() =~= Seq::<Seq<char>>::empty());
        assert(keys.drop_first() =~= Seq::<Seq<char>>::empty());
    } else {
        lemma_walk_first_step(document, keys.drop_last());
        assert(keys.drop_last().drop_first() =~= keys.drop_first().drop_last());
        assert(keys.drop_last()[0] == keys[0]);
        assert(keys.drop_first().last() == keys.last());
    }
}

/// Two documents whose children agree under the first step of `path` agree at `path`.
proof fn lemma_agreeing_first_step(first: Value, second: Value, path: Seq<char>)
    requires
        child(first, split(path, '.')[0]) == child(second, split(path, '.')[0]),
    ensures
        value_at(first, path) == value_at(second, path),
{
    lemma_split_nonempty(path, '.');
    let keys = split(path, '.');
    lemma_walk_first_step(first, keys);
    lemma_walk_first_step(second, keys);
}

/// Whether entry `e`'s key begins none of the `required` paths: a key that is
/// not a string begins none.
pub open spec fn names_no_required_key(e: Entry, required: Seq<(Seq<char>, Kind)>) -> bool {
    forall|i: int| 0 <= i < required.len() ==> !has_key(e, #[trigger] split(required[i].0, '.')[0])
}

/// Anything a layout does not name is not its business: an entry whose key,
/// string or not, begins no required path may be added to a document's top
/// mapping, or put in the place of another such entry, without changing how
/// the document departs from the layout.
pub proof fn law_unnamed_key_does_not_matter(
    required: Seq<(Seq<char>, Kind)>,
    first: Value,
    second: Value,
    entry: Entry,
)
    requires
        names_no_required_key(entry, required),
        first is Hash,
        second is Hash,
        ({
            let before = first->Hash_0@;
            let after = second->Hash_0@;
            ||| after == before.push(entry)
            ||| (exists|j: int|
                0 <= j < before.len() && names_no_required_key(before[j], required) && after == before.update(
                    j,
                    entry,
                ))
        }),
    ensures
        departures(required, first) == departures(required, second),
{
    let before = first->Hash_0@;
    let after = second->Hash_0@;
    assert forall|i: int| 0 <= i < required.len() implies value_at(first, #[trigger] required[i].0) == value_at(
        second,
        required[i].0,
    ) by {
        let step = split(required[i].0, '.')[0];
        assert(!has_key(entry, step));
        lemma_find_key_found(before, step);
        if after == before.push(entry) {
            assert(after.drop_last() =~= before);
        } else {
            let j = choose|j: int|
                0 <= j < before.len() && names_no_required_key(before[j], required) && after == before.update(j, entry);
            assert(!has_key(before[j], step));
            lemma_find_key_update(before, j, entry, step);
        }
        assert(child(first, step) == child(second, step));
        lemma_agreeing_first_step(first, second, required[i].0);
    }
    law_only_required_paths_matter(required, first, second);
}

/// Each kind is held by its own sort of YAML value and by no other: a table
/// only by a mapping, an array only by a sequence, an integer only by an
/// integer, a float only by a float, a boolean only by a boolean, and a string
/// or a datetime only by a string; and every mapping, sequence, integer,
/// float, boolean and string holds its kind.
pub proof fn law_each_kind_is_held_by_its_own_values(value: Value)
    ensures
        value_holds(Kind::Table, value) <==> value is Hash,
        value_holds(Kind::Array, value) <==> value is Array,
        value_holds(Kind::Integer, value) <==> value is Integer,
        value_holds(Kind::Float, value) <==> value is Real,
        value_holds(Kind::Boolean, value) <==> value is Boolean,
        value_holds(Kind::String, value) <==> value is String,
        value_holds(Kind::Datetime, value) ==> value is String,
{
}

/// A string key present in a mapping is found, at its first entry: where some
/// entry has the key, the search finds an entry with that key at or before it.
pub proof fn law_present_key_is_found(es: Seq<Entry>, key: Seq<char>, i: int)
    requires
        0 <= i < es.len(),
        has_key(es[i], key),
    ensures
        find_key(es, key) matches Some(j) && 0 <= j <= i && has_key(es[j], key)
            && forall|k: int| 0 <= k < j ==> !has_key(#[trigger] es[k], key),
    decreases es.len(),
{
    if i < es.len() - 1 {
        law_present_key_is_found(es.drop_last(), key, i);
        let j = find_key(es.drop_last(), key)->Some_0;
        assert(es.drop_last()[j] == es[j]);
        assert forall|k: int| 0 <= k < j implies !has_key(#[trigger] es[k], key) by {
            assert(es.drop_last()[k] == es[k]);
        }
    } else {
        lemma_find_key_absent_or_first(es.drop_last(), key);
        if find_key(es.drop_last(), key) is Some {
            let j = find_key(es.drop_last(), key)->Some_0;
            assert(es.drop_last()[j] == es[j]);
            assert forall|k: int| 0 <= k < j implies !has_key(#[trigger] es[k], key) by {
                assert(es.drop_last()[k] == es[k]);
            }
        } else {
            assert forall|k: int| 0 <= k < es.len() - 1 implies !has_key(#[trigger] es[k], key) by {
                assert(es.drop_last()[k] == es[k]);
            }
        }
    }
}

/// The search finds the first entry with the key, or there is none.
proof fn lemma_find_key_absent_or_first(es: Seq<Entry>, key: Seq<char>)
    ensures
        match find_key(es, key) {
            Some(j) => 0 <= j < es.len() && has_key(es[j], key) && forall|k: int| 0 <= k < j ==> !has_key(#[trigger] es[k], key),
            None => forall|k: int| 0 <= k < es.len() ==> !has_key(#[trigger] es[k], key),
        },
    decreases es.len(),
{
    if es.len() > 0 {
        lemma_find_key_absent_or_first(es.drop_last(), key);
        assert forall|k: int| 0 <= k < es.len() - 1 implies es.drop_last()[k] == #[trigger] es[k] by {}
    }
}

/// A mapping that holds a string key has a value under it.
pub proof fn law_present_key_has_a_child(document: Value, key: Seq<char>, i: int)
    requires
        document matches Value::Hash(es) && 0 <= i < es@.len() && has_key(es@[i], key),
    ensures
        child(document, key) is Some,
{
    law_present_key_is_found(document->Hash_0@, key, i);
}

/// The first `c` after a prefix without one is just past that prefix.
proof fn lemma_index_after_prefix(a: Seq<char>, s: Seq<char>, c: char)
    requires
        index_of(a, c) is None,
        s.len() > 0,
        s[0] == c,
    ensures
        index_of(a + s, c) == Some(a.len() as int),
{
    let t = a + s;
    assert(t.take(a.len() as int + 1).drop_last() =~= a);
    assert(t.take(a.len() as int + 1).last() == c);
    crate::text::lemma_index_of_prefix(t, a.len() as int + 1, c);
}

/// Only the key decides whether `key: value` looks like YAML: a key without
/// `:` that trims to a YAML-shaped key (non-empty, opening no flow collection
/// or quote, holding no `=` or `[`) makes `key:` alone and `key: value` key
/// lines, whatever the value is.
pub proof fn law_value_after_key_does_not_decide(key: Seq<char>, value: Seq<char>)
    requires
        index_of(key, ':') is None,
        trim(key).len() > 0,
        trim(key)[0] != '[' && trim(key)[0] != '{' && trim(key)[0] != '"' && trim(key)[0] != '\'',
        index_of(trim(key), '=') is None,
        index_of(trim(key), '[') is None,
    ensures
        key_line(key + seq![':', ' '] + value),
        key_line(key + seq![':']),
{
    let line = key + seq![':', ' '] + value;
    assert(line =~= key + (seq![':', ' '] + value));
    lemma_index_after_prefix(key, seq![':', ' '] + value, ':');
    assert(line.take(key.len() as int) =~= key);
    assert(line.skip(key.len() as int + 1)[0] == ' ');
    let bare = key + seq![':'];
    lemma_index_after_prefix(key, seq![':'], ':');
    assert(bare.take(key.len() as int) =~= key);
    assert(bare.skip(key.len() as int + 1).len() == 0);
}

/// Whether every byte of `s` is an ASCII digit.
pub open spec fn all_digits(s: Seq<u8>) -> bool {
    forall|i: int| 0 <= i < s.len() ==> is_digit_byte(#[trigger] s[i])
}

/// A run of blanks read after a prefix ends where it ends on its own, shifted.
proof fn lemma_blank_run_shift(p: Seq<u8>, z: Seq<u8>, i: int)
    requires
        0 <= i <= z.len(),
    ensures
        blank_run_end(p + z, p.len() + i) == p.len() + blank_run_end(z, i),
    decreases z.len() - i,
{
    if i < z.len() {
        assert((p + z)[p.len() + i] == z[i]);
        lemma_blank_run_shift(p, z, i + 1);
    }
}

/// A run of digits read after a prefix ends where it ends on its own, shifted.
proof fn lemma_digit_run_shift(p: Seq<u8>, z: Seq<u8>, i: int)
    requires
        0 <= i <= z.len(),
    ensures
        digit_run_end(p + z, p.len() + i) == p.len() + digit_run_end(z, i),
    decreases z.len() - i,
{
    if i < z.len() {
        assert((p + z)[p.len() + i] == z[i]);
        lemma_digit_run_shift(p, z, i + 1);
    }
}

/// A zone reads the same after any prefix.
proof fn lemma_zone_shift(p: Seq<u8>, z: Seq<u8>)
    ensures
        zone_from(p + z, p.len() as int) == zone_from(z, 0),
{
    let t = p + z;
    let n = p.len() as int;
    lemma_blank_run_shift(p, z, 0);
    let j = blank_run_end(z, 0);
    crate::layout::lemma_blank_run_bounds(z, 0);
    assert forall|k: int| 0 <= k < z.len() implies t[n + k] == z[k] by {}
    if 0 <= j + 1 < z.len() {
        assert(t[n + j + 1] == z[j + 1]);
    }
    if 0 <= j + 2 < z.len() {
        assert(t[n + j + 2] == z[j + 2]);
    }
    let h = short_number_end(z, j + 1);
    if j < z.len() {
        assert(short_number_end(t, n + j + 1) == n + h);
        if 0 <= h < z.len() {
            assert(t[n + h] == z[h]);
        }
        if 0 <= h + 1 < z.len() {
            assert(t[n + h + 1] == z[h + 1]);
        }
        if 0 <= h + 2 < z.len() {
            assert(t[n + h + 2] == z[h + 2]);
        }
        assert(two_digits(t, n + h + 1) == two_digits(z, h + 1));
    }
}

/// A zone begins with no digit.
proof fn lemma_zone_starts_without_digit(z: Seq<u8>)
    requires
        zone_from(z, 0),
        z.len() > 0,
    ensures
        !is_digit_byte(z[0]),
{
    if is_digit_byte(z[0]) {
        assert(blank_run_end(z, 0) == 0);
    }
}

/// Digits followed by something that does not begin with a digit run exactly
/// as long as the digits.
proof fn lemma_digit_run_of_digits(f: Seq<u8>, z: Seq<u8>, i: int)
    requires
        0 <= i <= f.len(),
        all_digits(f),
        z.len() == 0 || !is_digit_byte(z[0]),
    ensures
        digit_run_end(f + z, i) == f.len(),
    decreases f.len() - i,
{
    if i < f.len() {
        assert((f + z)[i] == f[i]);
        lemma_digit_run_of_digits(f, z, i + 1);
    } else if z.len() > 0 {
        assert((f + z)[i] == z[0]);
    }
}

/// The hour and minutes of a clock time: `h:mm` or `hh:mm`.
pub open spec fn clock(hour: Seq<u8>, minute: Seq<u8>) -> bool {
    1 <= hour.len() <= 2 && all_digits(hour) && minute.len() == 2 && all_digits(minute)
}

/// The hour and minutes of a time of day read alike whatever follows them.
proof fn lemma_clock_prefix(hour: Seq<u8>, minute: Seq<u8>, rest: Seq<u8>)
    requires
        clock(hour, minute),
    ensures
        ({
            let t = hour + seq![58u8] + minute + rest;
            let h = short_number_end(t, 0);
            &&& h == hour.len()
            &&& t[h] == 58
            &&& two_digits(t, h + 1)
        }),
{
    let t = hour + seq![58u8] + minute + rest;
    assert(t[0] == hour[0]);
    assert(t[hour.len() as int] == 58);
    if hour.len() == 2 {
        assert(t[1] == hour[1]);
    }
    assert(t[hour.len() as int + 1] == minute[0]);
    assert(t[hour.len() as int + 2] == minute[1]);
}

/// A clock time followed by any zone is a time of day.
pub proof fn law_clock_time_with_zone(hour: Seq<u8>, minute: Seq<u8>, zone: Seq<u8>)
    requires
        clock(hour, minute),
        zone_from(zone, 0),
    ensures
        time_shape(hour + seq![58u8] + minute + zone),
{
    let t = hour + seq![58u8] + minute + zone;
    lemma_clock_prefix(hour, minute, zone);
    let p = hour + seq![58u8] + minute;
    assert(t =~= p + zone);
    lemma_zone_shift(p, zone);
}

/// A clock time with seconds, followed by any zone, is a time of day.
pub proof fn law_clock_time_with_seconds(hour: Seq<u8>, minute: Seq<u8>, second: Seq<u8>, zone: Seq<u8>)
    requires
        clock(hour, minute),
        second.len() == 2,
        all_digits(second),
        zone_from(zone, 0),
    ensures
        time_shape(hour + seq![58u8] + minute + (seq![58u8] + second + zone)),
{
    let t = hour + seq![58u8] + minute + (seq![58u8] + second + zone);
    lemma_clock_prefix(hour, minute, seq![58u8] + second + zone);
    let m = hour.len() as int + 3;
    assert(t[m] == 58);
    assert(t[m + 1] == second[0]);
    assert(t[m + 2] == second[1]);
    let p = hour + seq![58u8] + minute + seq![58u8] + second;
    assert(t =~= p + zone);
    lemma_zone_shift(p, zone);
}

/// A clock time with seconds and a fraction of any number of digits, followed
/// by any zone, is a time of day.
pub proof fn law_clock_time_with_fraction(
    hour: Seq<u8>,
    minute: Seq<u8>,
    second: Seq<u8>,
    fraction: Seq<u8>,
    zone: Seq<u8>,
)
    requires
        clock(hour, minute),
        second.len() == 2,
        all_digits(second),
        all_digits(fraction),
        zone_from(zone, 0),
    ensures
        time_shape(hour + seq![58u8] + minute + (seq![58u8] + second + (seq![46u8] + fraction + zone))),
{
    let t = hour + seq![58u8] + minute + (seq![58u8] + second + (seq![46u8] + fraction + zone));
    lemma_clock_prefix(hour, minute, seq![58u8] + second + (seq![46u8] + fraction + zone));
    let m = hour.len() as int + 3;
    assert(t[m] == 58);
    assert(t[m + 1] == second[0]);
    assert(t[m + 2] == second[1]);
    assert(t[m + 3] == 46);
    let p = hour + seq![58u8] + minute + seq![58u8] + second + seq![46u8];
    assert(t =~= p + (fraction + zone));
    if zone.len() > 0 {
        lemma_zone_starts_without_digit(zone);
    }
    lemma_digit_run_of_digits(fraction, zone, 0);
    lemma_digit_run_shift(p, fraction + zone, 0);
    let q = p + fraction;
    assert(t =~= q + zone);
    lemma_zone_shift(q, zone);
}

/// `key` under the dotted path `prefix`: `prefix.key`, or `key` at the top.
pub open spec fn dotted(prefix: Seq<char>, key: Seq<char>) -> Seq<char> {
    if prefix.len() == 0 {
        key
    } else {
        prefix + seq!['.'] + key
    }
}

/// Whether `path` is `parent` itself or a path below it, `parent.…`; below an
/// empty parent, any path is.
pub open spec fn at_or_below(path: Seq<char>, parent: Seq<char>) -> bool {
    path == parent || parent.len() == 0 || starts_with(path, parent + seq!['.'])
}

/// A text that begins with `a + b` begins with `a`.
proof fn lemma_starts_with_shorter(s: Seq<char>, a: Seq<char>, b: Seq<char>)
    requires
        starts_with(s, a + b),
    ensures
        starts_with(s, a),
{
    assert(s.take(a.len() as int) =~= s.take((a + b).len() as int).take(a.len() as int));
    assert((a + b).take(a.len() as int) =~= a);
}

/// Every key a layout mapping requires under a non-empty dotted `prefix` has
/// a path below it: `prefix.…`.
pub proof fn law_required_paths_lie_below_their_prefix(v: Value, prefix: Seq<char>)
    ensures
        collect_value(v, prefix) matches Ok(items) ==> prefix.len() > 0 ==> forall|j: int|
            0 <= j < items.len() ==> starts_with(#[trigger] items[j].0, prefix + seq!['.']),
    decreases v, 1nat,
{
    if let Value::Hash(es) = v {
        lemma_entry_paths(es@, prefix, es@.len());
    }
}

/// Every key the first `n` entries of a layout mapping require lies at or
/// below the dotted path of one of those entries; under a non-empty prefix,
/// below the prefix.
proof fn lemma_entry_paths(es: Seq<Entry>, prefix: Seq<char>, n: nat)
    ensures
        collect_entries(es, prefix, n) matches Ok(items) ==> forall|j: int|
            0 <= j < items.len() ==> (exists|i: int|
                0 <= i < n && i < es.len() && at_or_below(#[trigger] items[j].0, dotted(prefix, key_text(es[i]))))
                && (prefix.len() > 0 ==> starts_with(items[j].0, prefix + seq!['.'])),
    decreases es, n,
{
    if n == 0 || n > es.len() {
    } else {
        lemma_entry_paths(es, prefix, (n - 1) as nat);
        if let Ok(items) = collect_entries(es, prefix, n) {
            let before = collect_entries(es, prefix, (n - 1) as nat)->Ok_0;
            let e = es[n - 1];
            let d = dotted(prefix, key_text(e));
            reveal_strlit(".");
            assert("."@ =~= seq!['.']);
            assert(crate::layout::child_path(prefix, key_text(e)) == d);
            let fresh = items.skip(before.len() as int);
            if let Value::Hash(_) = e.value {
                law_required_paths_lie_below_their_prefix(e.value, d);
                assert(items =~= before + collect_value(e.value, d)->Ok_0);
            }
            assert forall|j: int| 0 <= j < items.len() implies (exists|i: int|
                0 <= i < n && i < es.len() && at_or_below(#[trigger] items[j].0, dotted(prefix, key_text(es[i]))))
                && (prefix.len() > 0 ==> starts_with(items[j].0, prefix + seq!['.'])) by {
                if j < before.len() {
                    assert(items[j] == before[j]);
                } else {
                    assert(at_or_below(items[j].0, d));
                    if prefix.len() > 0 {
                        assert(d == prefix + seq!['.'] + key_text(e));
                        if items[j].0 == d {
                            assert(items[j].0.take(prefix.len() as int + 1) =~= prefix + seq!['.']);
                        } else {
                            lemma_starts_with_shorter(items[j].0, d, seq!['.']);
                            lemma_starts_with_shorter(items[j].0, prefix + seq!['.'], key_text(e));
                        }
                    }
                }
            }
        }
    }
}

/// Every key a layout mapping requires lies at or below the dotted path of
/// one of its entries: a key nested in an entry's mapping keeps that entry's
/// whole path, `parent.key...`, from the top of the layout down.
pub proof fn law_required_paths_name_their_entries(v: Value, prefix: Seq<char>)
    requires
        v is Hash,
    ensures
        collect_value(v, prefix) matches Ok(items) ==> forall|j: int|
            0 <= j < items.len() ==> exists|i: int|
                0 <= i < v->Hash_0@.len() && at_or_below(#[trigger] items[j].0, dotted(prefix, key_text(v->Hash_0@[i]))),
{
    lemma_entry_paths(v->Hash_0@, prefix, v->Hash_0@.len());
}

} // verus!

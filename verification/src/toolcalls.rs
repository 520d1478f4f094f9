//! Hardening of the tool calls that a model asks for.

use vstd::prelude::*;
use vstd::string::*;
use vstd::utf8::*;

use crate::events::{call_views, ParsedToolCall, ToolCallView};
use crate::json::{text_of_json, Json, JsonObject, JsonView};
use crate::text::{contains, has_part, lowercase, starts_with, str_eq, to_lowercase};

verus! {

impl ToolCallView {
    /// What makes a call the same as another: its name and the text of its arguments.
    pub open spec fn key(self) -> (Seq<char>, Seq<char>) {
        (self.name, text_of_json(self.arguments))
    }
}

/// Some of the first `n` calls has the key.
pub open spec fn key_among(
    calls: Seq<ToolCallView>,
    n: int,
    key: (Seq<char>, Seq<char>),
) -> bool {
    exists|j: int| 0 <= j < n && (#[trigger] calls[j]).key() == key
}

/// The calls without those that repeat an earlier one.
pub open spec fn deduped(calls: Seq<ToolCallView>) -> Seq<ToolCallView>
    decreases calls.len(),
{
    if calls.len() == 0 {
        calls
    } else {
        let before = deduped(calls.drop_last());
        if key_among(calls, calls.len() - 1, calls.last().key()) {
            before
        } else {
            before.push(calls.last())
        }
    }
}

/// Before call `n` there is one with the same name and the same text of its arguments.
pub open spec fn repeats(calls: Seq<ToolCallView>, texts: Seq<Seq<char>>, n: int) -> bool {
    exists|j: int|
        0 <= j < n && (#[trigger] calls[j]).name == calls[n].name && texts[j] == texts[n]
}

/// The calls without those that repeat an earlier one, given the texts of their arguments.
pub open spec fn first_of_each(calls: Seq<ToolCallView>, texts: Seq<Seq<char>>) -> Seq<ToolCallView>
    decreases calls.len(),
{
    if calls.len() == 0 {
        calls
    } else {
        let before = first_of_each(calls.drop_last(), texts);
        if repeats(calls, texts, calls.len() - 1) {
            before
        } else {
            before.push(calls.last())
        }
    }
}

/// The texts of a vector.
pub open spec fn text_views(texts: Seq<String>) -> Seq<Seq<char>> {
    texts.map_values(|s: String| s@)
}

/// Whether there is an earlier call with the same name and the same text of its arguments.
fn is_repeat(calls: &Vec<ParsedToolCall>, texts: &Vec<String>, n: usize) -> (r: bool)
    requires
        n < calls@.len(),
        calls@.len() == texts@.len(),
    ensures
        r == repeats(call_views(calls@), text_views(texts@), n as int),
{
    let ghost all = call_views(calls@);
    let ghost args = text_views(texts@);
    let mut j: usize = 0;
    while j < n
        invariant
            j <= n < calls@.len(),
            calls@.len() == texts@.len(),
            all == call_views(calls@),
            args == text_views(texts@),
            forall|k: int|
                0 <= k < j ==> !((#[trigger] all[k]).name == all[n as int].name && args[k]
                    == args[n as int]),
        decreases n - j,
    {
        if str_eq(calls[j].name.as_str(), calls[n].name.as_str()) && str_eq(
            texts[j].as_str(),
            texts[n].as_str(),
        ) {
            assert(all[j as int].name == all[n as int].name);
            return true;
        }
        j = j + 1;
    }
    false
}

/// Drops every tool call before which there is one with the same name and the same text of its
/// arguments.
pub fn drop_repeats(calls: Vec<ParsedToolCall>, texts: Vec<String>) -> (r: Vec<ParsedToolCall>)
    requires
        calls@.len() == texts@.len(),
    ensures
        call_views(r@) == first_of_each(call_views(calls@), text_views(texts@)),
{
    let n: usize = calls.len();
    let ghost list = calls@;
    let ghost all = call_views(calls@);
    let ghost args = text_views(texts@);
    let mut repeated: Vec<bool> = Vec::new();
    let mut i: usize = 0;
    while i < n
        invariant
            i <= n,
            n == calls@.len(),
            calls@ == list,
            calls@.len() == texts@.len(),
            all == call_views(list),
            args == text_views(texts@),
            repeated@.len() == i,
            forall|k: int| 0 <= k < i ==> #[trigger] repeated@[k] == repeats(all, args, k),
        decreases n - i,
    {
        repeated.push(is_repeat(&calls, &texts, i));
        i = i + 1;
    }
    let mut out: Vec<ParsedToolCall> = Vec::new();
    let mut at: usize = 0;
    assert(all.take(0) =~= Seq::empty());
    assert(call_views(out@) =~= Seq::empty());
    for tc in it: calls
        invariant
            it.seq() == list,
            at == it.index(),
            n == list.len(),
            all == call_views(list),
            repeated@.len() == n,
            forall|k: int| 0 <= k < n ==> #[trigger] repeated@[k] == repeats(all, args, k),
            call_views(out@) == first_of_each(all.take(at as int), args),
    {
        let ghost c = tc@;
        let ghost out0 = out@;
        let ghost upto = all.take(at + 1);
        assert(at < n);
        assert(upto.drop_last() =~= all.take(at as int));
        assert(upto.last() == c);
        proof {
            if repeats(all, args, at as int) {
                let j = choose|j: int|
                    0 <= j < at && (#[trigger] all[j]).name == all[at as int].name && args[j]
                        == args[at as int];
                assert(upto[j].name == upto[at as int].name);
            }
            if repeats(upto, args, at as int) {
                let j = choose|j: int|
                    0 <= j < at && (#[trigger] upto[j]).name == upto[at as int].name && args[j]
                        == args[at as int];
                assert(all[j].name == all[at as int].name);
            }
        }
        if !repeated[at] {
            out.push(tc);
            assert(call_views(out@) =~= call_views(out0).push(c));
        }
        at = at + 1;
    }
    assert(all.take(all.len() as int) =~= all);
    out
}

/// With the texts of their arguments, the first calls are those that are kept.
proof fn lemma_first_of_each_key(calls: Seq<ToolCallView>, texts: Seq<Seq<char>>)
    requires
        calls.len() <= texts.len(),
        forall|j: int|
            0 <= j < calls.len() ==> #[trigger] texts[j] == text_of_json(calls[j].arguments),
    ensures
        first_of_each(calls, texts) == deduped(calls),
    decreases calls.len(),
{
    if calls.len() > 0 {
        let n = calls.len() - 1;
        lemma_first_of_each_key(calls.drop_last(), texts);
        let k = calls.last().key();
        assert(texts[n] == text_of_json(calls[n].arguments));
        if repeats(calls, texts, n) {
            let j = choose|j: int|
                0 <= j < n && (#[trigger] calls[j]).name == calls[n].name && texts[j] == texts[n];
            assert(texts[j] == text_of_json(calls[j].arguments));
            assert(calls[j].key() == k);
        }
        if key_among(calls, n, k) {
            let j = choose|j: int| 0 <= j < n && (#[trigger] calls[j]).key() == k;
            assert(texts[j] == texts[n]);
        }
    }
}

/// Drops every tool call that repeats an earlier one.
pub fn dedup_tool_calls(calls: Vec<ParsedToolCall>) -> (r: Vec<ParsedToolCall>)
    ensures
        call_views(r@) == deduped(call_views(calls@)),
{
    let ghost all = call_views(calls@);
    let mut texts: Vec<String> = Vec::new();
    let mut i: usize = 0;
    while i < calls.len()
        invariant
            i <= calls@.len(),
            texts@.len() == i,
            all == call_views(calls@),
            forall|j: int| 0 <= j < i ==> (#[trigger] texts@[j])@ == text_of_json(all[j].arguments),
        decreases calls@.len() - i,
    {
        texts.push(calls[i].arguments.to_text());
        i = i + 1;
    }
    proof {
        lemma_first_of_each_key(all, text_views(texts@));
    }
    drop_repeats(calls, texts)
}

/// The field, in lower case, holds a path.
pub open spec fn names_path(key_lower: Seq<char>) -> bool {
    ||| has_part(key_lower, "path"@)
    ||| has_part(key_lower, "file"@)
    ||| has_part(key_lower, "dir"@)
    ||| key_lower == "cwd"@
    ||| key_lower == "root"@
    ||| key_lower == "output"@
    ||| key_lower == "input"@
}

/// Whether a field, in lower case, holds a path.
pub fn is_path_field(key_lower: &str) -> (r: bool)
    ensures
        r == names_path(key_lower@),
{
    contains(key_lower, "path") || contains(key_lower, "file") || contains(key_lower, "dir")
        || str_eq(key_lower, "cwd") || str_eq(key_lower, "root") || str_eq(key_lower, "output")
        || str_eq(key_lower, "input")
}

/// The text starts with a drive letter, a colon and a backslash.
pub open spec fn has_drive(lower: Seq<char>) -> bool {
    let b = encode_utf8(lower);
    b.len() >= 3 && b[1] == 0x3a && b[2] == 0x5c
}

/// The text is a path that leads where it should not: upwards, into a directory of the
/// system, to a drive, to a home directory, or past a null character.
pub open spec fn dangerous(s: Seq<char>, lower: Seq<char>) -> bool {
    ||| has_part(s, "../"@)
    ||| has_part(s, "..\\"@)
    ||| "/"@.is_prefix_of(s) && (has_part(s, "/etc/"@) || has_part(s, "/var/"@) || has_part(
        s,
        "/root/"@,
    ))
    ||| has_drive(lower)
    ||| "~/"@.is_prefix_of(s)
    ||| "~\\"@.is_prefix_of(s)
    ||| has_part(s, "\0"@)
}

/// Whether a text, given with its lower case, is a dangerous path.
pub fn is_dangerous_path(s: &str, lower: &str) -> (r: bool)
    ensures
        r == dangerous(s@, lower@),
{
    if contains(s, "../") || contains(s, "..\\") {
        return true;
    }
    if starts_with(s, "/") && (contains(s, "/etc/") || contains(s, "/var/") || contains(
        s,
        "/root/",
    )) {
        return true;
    }
    let b = lower.as_bytes();
    if b.len() >= 3 && b[1] == 0x3a && b[2] == 0x5c {
        return true;
    }
    if starts_with(s, "~/") || starts_with(s, "~\\") {
        return true;
    }
    contains(s, "\0")
}

/// Whether a text is a dangerous path.
pub fn contains_path_danger(s: &str) -> (r: bool)
    ensures
        r == dangerous(s@, lowercase(s@)),
{
    let lower = to_lowercase(s);
    is_dangerous_path(s, lower.as_str())
}

/// A field that holds a path holds a dangerous one.
pub open spec fn bad_field(key: Seq<char>, value: JsonView) -> bool {
    names_path(lowercase(key)) && (value matches JsonView::String(s) && dangerous(s, lowercase(s)))
}

/// Somewhere in the value a field that holds a path holds a dangerous one.
pub open spec fn polluted(j: JsonView) -> bool
    decreases j,
{
    match j {
        JsonView::Object(m) => exists|k: Seq<char>|
            #![trigger m.contains_key(k)]
            if m.contains_key(k) {
                bad_field(k, m[k]) || polluted(m[k])
            } else {
                false
            },
        JsonView::Array(v) => exists|i: int|
            #![trigger v[i]]
            if 0 <= i < v.len() {
                polluted(v[i])
            } else {
                false
            },
        _ => false,
    }
}

/// One bad entry pollutes an object.
pub proof fn lemma_polluted_by(m: Map<Seq<char>, JsonView>, k: Seq<char>)
    requires
        m.contains_key(k),
        bad_field(k, m[k]) || polluted(m[k]),
    ensures
        polluted(JsonView::Object(m)),
{
    let j = JsonView::Object(m);
    assert(j->Object_0.contains_key(k));
}

/// Whether a field that holds a path, at any depth of a tool call's arguments, holds a
/// dangerous one.
pub fn has_path_pollution(args: &Json) -> (r: bool)
    ensures
        r == polluted(args@),
    decreases args,
{
    match args {
        Json::Object(o) => {
            let n: usize = o.len();
            let mut i: usize = 0;
            while i < n
                invariant
                    i <= n,
                    n == o.keys().len(),
                    *args == Json::Object(*o),
                    forall|k: Seq<char>| #[trigger]
                        o@.contains_key(k) <==> o.keys().contains(k),
                    forall|j: int|
                        0 <= j < i ==> !bad_field(#[trigger] o.keys()[j], o@[o.keys()[j]])
                            && !polluted(o@[o.keys()[j]]),
                decreases n - i,
            {
                assert(args@ == JsonView::Object(o@));
                let key = o.key_at(i);
                let value = o.value_at(i);
                let ghost k = o.keys()[i as int];
                let key_lower = to_lowercase(key.as_str());
                if is_path_field(key_lower.as_str()) {
                    if let Json::String(s) = value {
                        if contains_path_danger(s.as_str()) {
                            proof {
                                lemma_polluted_by(o@, k);
                            }
                            return true;
                        }
                    }
                }
                assert(decreases_to!(*args => args->Object_0));
                if has_path_pollution(value) {
                    proof {
                        lemma_polluted_by(o@, k);
                    }
                    return true;
                }
                i = i + 1;
            }
            assert(args@ == JsonView::Object(o@));
            assert forall|k: Seq<char>| #[trigger] o@.contains_key(k) implies !bad_field(k, o@[k])
                && !polluted(o@[k]) by {
                let j = choose|j: int| 0 <= j < o.keys().len() && o.keys()[j] == k;
                assert(o.keys()[j] == k);
            }
            false
        },
        Json::Array(items) => {
            let mut i: usize = 0;
            while i < items.len()
                invariant
                    i <= items@.len(),
                    *args == Json::Array(*items),
                    forall|j: int| 0 <= j < i ==> !polluted(#[trigger] items@[j]@),
                decreases items@.len() - i,
            {
                assert(decreases_to!(*args => args->Array_0));
                assert(decreases_to!(*items => items@));
                assert(decreases_to!(items@ => items@[i as int]));
                if has_path_pollution(&items[i]) {
                    assert(args@->Array_0[i as int] == items@[i as int]@);
                    assert(polluted(args@->Array_0[i as int]));
                    return true;
                }
                i = i + 1;
            }
            assert forall|j: int| 0 <= j < args@->Array_0.len() implies !polluted(
                #[trigger] args@->Array_0[j],
            ) by {
                assert(args@->Array_0[j] == items@[j]@);
            }
            false
        },
        _ => false,
    }
}

/// The object with the first alias that it has renamed to the target. Where the target is
/// already there, the alias is dropped.
pub open spec fn renamed(
    m: Map<Seq<char>, JsonView>,
    aliases: Seq<Seq<char>>,
    target: Seq<char>,
) -> Map<Seq<char>, JsonView>
    decreases aliases.len(),
{
    if aliases.len() == 0 {
        m
    } else if m.contains_key(aliases[0]) {
        let rest = m.remove(aliases[0]);
        if rest.contains_key(target) {
            rest
        } else {
            rest.insert(target, m[aliases[0]])
        }
    } else {
        renamed(m, aliases.drop_first(), target)
    }
}

/// The aliases of the argument `command`.
pub open spec fn command_aliases() -> Seq<Seq<char>> {
    seq!["cmd"@, "shell"@, "exec"@, "run"@]
}

/// The aliases of the argument `file`.
pub open spec fn file_aliases() -> Seq<Seq<char>> {
    seq!["filepath"@, "file_path"@, "filename"@, "path"@]
}

/// The aliases of the argument `dir`.
pub open spec fn dir_aliases() -> Seq<Seq<char>> {
    seq!["directory"@, "folder"@]
}

/// The aliases of the argument `query`.
pub open spec fn query_aliases() -> Seq<Seq<char>> {
    seq!["regex"@, "pattern"@, "grep"@]
}

/// The aliases of the argument `output`.
pub open spec fn output_aliases() -> Seq<Seq<char>> {
    seq!["output_file"@, "outfile"@, "out"@]
}

/// The aliases of the argument `input`.
pub open spec fn input_aliases() -> Seq<Seq<char>> {
    seq!["input_file"@, "infile"@]
}

/// The object with the usual names for its arguments.
pub open spec fn coerced_map(m: Map<Seq<char>, JsonView>) -> Map<Seq<char>, JsonView> {
    let m = renamed(m, command_aliases(), "command"@);
    let m = renamed(m, file_aliases(), "file"@);
    let m = renamed(m, dir_aliases(), "dir"@);
    let m = renamed(m, query_aliases(), "query"@);
    let m = renamed(m, output_aliases(), "output"@);
    renamed(m, input_aliases(), "input"@)
}

/// The arguments with their usual names.
pub open spec fn coerced(args: JsonView) -> JsonView {
    match args {
        JsonView::Object(m) => JsonView::Object(coerced_map(m)),
        _ => args,
    }
}

/// The texts of a vector of slices.
pub open spec fn slice_views(names: Seq<&str>) -> Seq<Seq<char>> {
    names.map_values(|s: &str| s@)
}

/// Renames the first alias that is there to the target.
fn rename_first(map: &mut JsonObject, aliases: &Vec<&str>, target: &str)
    ensures
        final(map)@ == renamed(old(map)@, slice_views(aliases@), target@),
{
    let ghost all = slice_views(aliases@);
    let mut i: usize = 0;
    assert(all.skip(0) =~= all);
    while i < aliases.len()
        invariant
            i <= aliases@.len(),
            all == slice_views(aliases@),
            map@ == old(map)@,
            renamed(map@, all, target@) == renamed(map@, all.skip(i as int), target@),
        decreases aliases@.len() - i,
    {
        let ghost m = map@;
        let alias: &str = aliases[i];
        proof {
            assert(all.skip(i as int)[0] == alias@);
            assert(all.skip(i as int).drop_first() =~= all.skip(i + 1));
        }
        match map.remove(alias) {
            Some(v) => {
                if !map.contains_key(target) {
                    map.insert(String::from_str(target), v);
                }
                return ;
            },
            None => {
                assert(m.remove(alias@) =~= m);
                assert(map@ == m);
            },
        }
        i = i + 1;
    }
}

/// Gives the arguments of a tool call their usual names.
pub fn coerce_argument_aliases(args: &mut Json)
    ensures
        final(args)@ == coerced(old(args)@),
{
    match args {
        Json::Object(map) => {
            let ghost m = map@;
            let command = vec!["cmd", "shell", "exec", "run"];
            let file = vec!["filepath", "file_path", "filename", "path"];
            let dir = vec!["directory", "folder"];
            let query = vec!["regex", "pattern", "grep"];
            let output = vec!["output_file", "outfile", "out"];
            let input = vec!["input_file", "infile"];
            assert(slice_views(command@) =~= command_aliases());
            assert(slice_views(file@) =~= file_aliases());
            assert(slice_views(dir@) =~= dir_aliases());
            assert(slice_views(query@) =~= query_aliases());
            assert(slice_views(output@) =~= output_aliases());
            assert(slice_views(input@) =~= input_aliases());
            rename_first(map, &command, "command");
            rename_first(map, &file, "file");
            rename_first(map, &dir, "dir");
            rename_first(map, &query, "query");
            rename_first(map, &output, "output");
            rename_first(map, &input, "input");
            assert(map@ == coerced_map(m));
        },
        _ => {},
    }
}

} // verus!

//! What holds of hardened tool calls.

use vstd::prelude::*;
use vstd::string::*;
use vstd::utf8::*;

use crate::events::{call_views, ParsedToolCall, ToolCallView};
use crate::json::{text_of_json, Json, JsonView};
use crate::text::lowercase;
use crate::text_laws::{holds, lemma_holds};
use crate::toolcalls::{
    bad_field, coerce_argument_aliases, coerced, coerced_map, command_aliases,
    contains_path_danger, dedup_tool_calls, deduped, dir_aliases, file_aliases,
    has_path_pollution, input_aliases, key_among, output_aliases, polluted, query_aliases, renamed,
};

verus! {

/// No two calls have both the same name and the same text of their arguments.
pub open spec fn distinct_calls(calls: Seq<ToolCallView>) -> bool {
    forall|i: int, j: int|
        0 <= i < j < calls.len() ==> (#[trigger] calls[i]).key() != (#[trigger] calls[j]).key()
}

/// Deduplication keeps exactly one call of each key.
pub proof fn lemma_dedup_keeps_one_of_each(calls: Seq<ToolCallView>)
    ensures
        distinct_calls(deduped(calls)),
        deduped(calls).len() <= calls.len(),
        forall|k: (Seq<char>, Seq<char>)| #[trigger]
            key_among(calls, calls.len() as int, k) <==> key_among(
                deduped(calls),
                deduped(calls).len() as int,
                k,
            ),
    decreases calls.len(),
{
    if calls.len() > 0 {
        let shorter = calls.drop_last();
        let n = calls.len() - 1;
        let before = deduped(shorter);
        let after = deduped(calls);
        lemma_dedup_keeps_one_of_each(shorter);
        assert forall|k: (Seq<char>, Seq<char>)| key_among(calls, n, k) <==> #[trigger] key_among(
            shorter,
            n,
            k,
        ) by {
            if key_among(calls, n, k) {
                let j = choose|j: int| 0 <= j < n && (#[trigger] calls[j]).key() == k;
                assert(shorter[j].key() == k);
            }
            if key_among(shorter, n, k) {
                let j = choose|j: int| 0 <= j < n && (#[trigger] shorter[j]).key() == k;
                assert(calls[j].key() == k);
            }
        }
        let repeated = key_among(calls, n, calls.last().key());
        assert(distinct_calls(after)) by {
            if !repeated {
                assert forall|i: int, j: int| 0 <= i < j < after.len() implies (
                #[trigger] after[i]).key() != (#[trigger] after[j]).key() by {
                    if j < before.len() {
                        assert(before[i].key() != before[j].key());
                    } else if after[i].key() == after[j].key() {
                        assert(before[i].key() == calls.last().key());
                        assert(key_among(before, before.len() as int, calls.last().key()));
                        assert(key_among(shorter, n, calls.last().key()));
                    }
                }
            }
        }
        assert forall|k: (Seq<char>, Seq<char>)| #[trigger]
            key_among(calls, calls.len() as int, k) <==> key_among(
                after,
                after.len() as int,
                k,
            ) by {
            assert(key_among(shorter, n, k) <==> key_among(before, before.len() as int, k));
            if key_among(calls, calls.len() as int, k) {
                let j = choose|j: int|
                    0 <= j < calls.len() && (#[trigger] calls[j]).key() == k;
                if j < n {
                    assert(key_among(calls, n, k));
                } else if repeated {
                    assert(key_among(calls, n, k));
                } else {
                    assert(after[before.len() as int].key() == k);
                }
                if key_among(before, before.len() as int, k) {
                    let m = choose|m: int|
                        0 <= m < before.len() && (#[trigger] before[m]).key() == k;
                    assert(after[m].key() == k);
                }
            }
            if key_among(after, after.len() as int, k) {
                let m = choose|m: int| 0 <= m < after.len() && (#[trigger] after[m]).key() == k;
                if m < before.len() {
                    assert(before[m].key() == k);
                    assert(key_among(before, before.len() as int, k));
                    let j = choose|j: int| 0 <= j < n && (#[trigger] calls[j]).key() == k;
                    assert(calls[j].key() == k);
                } else {
                    assert(calls[n].key() == k);
                }
            }
        }
    }
}

/// A call leaves exactly if an earlier one has the same name and the same text of its arguments;
/// any other stays as it is. The calls keep their order: what is kept of the first calls comes
/// first.
pub proof fn lemma_dedup_keeps_the_first(calls: Seq<ToolCallView>, n: int)
    requires
        0 <= n <= calls.len(),
    ensures
        deduped(calls.take(n)).is_prefix_of(deduped(calls)),
        n < calls.len() ==> deduped(calls.take(n + 1)) == if exists|j: int|
            0 <= j < n && (#[trigger] calls[j]).name == calls[n].name && text_of_json(
                calls[j].arguments,
            ) == text_of_json(calls[n].arguments) {
            deduped(calls.take(n))
        } else {
            deduped(calls.take(n)).push(calls[n])
        },
    decreases calls.len() - n,
{
    if n == calls.len() {
        assert(calls.take(n) =~= calls);
    } else {
        lemma_dedup_keeps_the_first(calls, n + 1);
        let upto = calls.take(n + 1);
        assert(upto.drop_last() =~= calls.take(n));
        assert(key_among(upto, n, calls[n].key()) <==> key_among(calls, n, calls[n].key())) by {
            let k = calls[n].key();
            if key_among(upto, n, k) {
                let j = choose|j: int| 0 <= j < n && (#[trigger] upto[j]).key() == k;
                assert(calls[j].key() == k);
            }
            if key_among(calls, n, k) {
                let j = choose|j: int| 0 <= j < n && (#[trigger] calls[j]).key() == k;
                assert(upto[j].key() == k);
            }
        }
        if exists|j: int|
            0 <= j < n && (#[trigger] calls[j]).name == calls[n].name && text_of_json(
                calls[j].arguments,
            ) == text_of_json(calls[n].arguments) {
            let j = choose|j: int|
                0 <= j < n && (#[trigger] calls[j]).name == calls[n].name && text_of_json(
                    calls[j].arguments,
                ) == text_of_json(calls[n].arguments);
            assert(calls[j].key() == calls[n].key());
        }
    }
}

/// Calls with distinct keys all stay, so to deduplicate twice is to do so once.
pub proof fn lemma_dedup_idempotent(calls: Seq<ToolCallView>)
    ensures
        distinct_calls(calls) ==> deduped(calls) == calls,
        deduped(deduped(calls)) == deduped(calls),
{
    if distinct_calls(calls) {
        lemma_distinct_unchanged(calls);
    }
    lemma_dedup_keeps_one_of_each(calls);
    lemma_distinct_unchanged(deduped(calls));
}

proof fn lemma_distinct_unchanged(calls: Seq<ToolCallView>)
    requires
        distinct_calls(calls),
    ensures
        deduped(calls) == calls,
    decreases calls.len(),
{
    if calls.len() > 0 {
        let n = calls.len() - 1;
        let shorter = calls.drop_last();
        assert(distinct_calls(shorter)) by {
            assert forall|i: int, j: int| 0 <= i < j < shorter.len() implies (
            #[trigger] shorter[i]).key() != (#[trigger] shorter[j]).key() by {
                assert(calls[i].key() != calls[j].key());
            }
        }
        lemma_distinct_unchanged(shorter);
        assert(!key_among(calls, n, calls.last().key())) by {
            if key_among(calls, n, calls.last().key()) {
                let j = choose|j: int|
                    0 <= j < n && (#[trigger] calls[j]).key() == calls.last().key();
                assert(calls[j].key() != calls[n].key());
            }
        }
        assert(deduped(calls) =~= calls);
    }
}

/// A dangerous path is found at any depth: what pollutes a part pollutes the whole.
pub proof fn lemma_pollution_spreads(
    m: Map<Seq<char>, JsonView>,
    k: Seq<char>,
    items: Seq<JsonView>,
    i: int,
)
    ensures
        m.contains_key(k) && polluted(m[k]) ==> polluted(JsonView::Object(m)),
        0 <= i < items.len() && polluted(items[i]) ==> polluted(JsonView::Array(items)),
{
    if m.contains_key(k) && polluted(m[k]) {
        crate::toolcalls::lemma_polluted_by(m, k);
    }
    let a = JsonView::Array(items);
    assert(a->Array_0[i] == items[i]);
}

/// More arguments do not hide a dangerous path.
pub proof fn lemma_pollution_is_not_hidden(
    m: Map<Seq<char>, JsonView>,
    more: Map<Seq<char>, JsonView>,
)
    requires
        m.submap_of(more),
        polluted(JsonView::Object(m)),
    ensures
        polluted(JsonView::Object(more)),
{
    let j = JsonView::Object(m);
    let k = choose|k: Seq<char>|
        #![trigger j->Object_0.contains_key(k)]
        if j->Object_0.contains_key(k) {
            bad_field(k, j->Object_0[k]) || polluted(j->Object_0[k])
        } else {
            false
        };
    assert(m.contains_key(k));
    assert(m.dom().contains(k) && more.dom().contains(k));
    assert(more[k] == m[k]);
    crate::toolcalls::lemma_polluted_by(more, k);
}

/// The target of a renaming keeps the value that it has; otherwise it gets that of the first
/// alias that is there. Only the target and that alias change.
pub proof fn lemma_renamed(
    m: Map<Seq<char>, JsonView>,
    aliases: Seq<Seq<char>>,
    target: Seq<char>,
    k: Seq<char>,
)
    requires
        !aliases.contains(target),
    ensures
        m.contains_key(target) ==> renamed(m, aliases, target).contains_key(target) && renamed(
            m,
            aliases,
            target,
        )[target] == m[target],
        k != target && !aliases.contains(k) ==> renamed(m, aliases, target).contains_key(k)
            == m.contains_key(k) && (m.contains_key(k) ==> renamed(m, aliases, target)[k] == m[k]),
        k != target && !m.contains_key(k) ==> !renamed(m, aliases, target).contains_key(k),
        k != target && renamed(m, aliases, target).contains_key(k) ==> m.contains_key(k)
            && renamed(m, aliases, target)[k] == m[k],
        (forall|j: int| 0 <= j < aliases.len() ==> !m.contains_key(#[trigger] aliases[j]))
            ==> renamed(m, aliases, target) == m,
    decreases aliases.len(),
{
    if aliases.len() > 0 {
        let rest = aliases.drop_first();
        assert(aliases.contains(aliases[0]));
        assert forall|x: Seq<char>| rest.contains(x) implies aliases.contains(x) by {
            let j = choose|j: int| 0 <= j < rest.len() && rest[j] == x;
            assert(aliases[j + 1] == x);
        }
        lemma_renamed(m, rest, target, k);
        if forall|j: int| 0 <= j < aliases.len() ==> !m.contains_key(#[trigger] aliases[j]) {
            assert forall|j: int| 0 <= j < rest.len() implies !m.contains_key(
                #[trigger] rest[j],
            ) by {
                assert(rest[j] == aliases[j + 1]);
            }
        }
    }
}

/// The name is one of the usual ones.
pub open spec fn usual_name(k: Seq<char>) -> bool {
    k == "command"@ || k == "file"@ || k == "dir"@ || k == "query"@ || k == "output"@ || k
        == "input"@
}

/// The name is an alias of a usual one.
pub open spec fn alias_name(k: Seq<char>) -> bool {
    command_aliases().contains(k) || file_aliases().contains(k) || dir_aliases().contains(k)
        || query_aliases().contains(k) || output_aliases().contains(k) || input_aliases().contains(
        k,
    )
}

/// No usual name is an alias.
proof fn lemma_names_apart(k: Seq<char>)
    ensures
        usual_name(k) ==> !alias_name(k),
{
    reveal_strlit("command");
    reveal_strlit("file");
    reveal_strlit("dir");
    reveal_strlit("query");
    reveal_strlit("output");
    reveal_strlit("input");
    reveal_strlit("cmd");
    reveal_strlit("shell");
    reveal_strlit("exec");
    reveal_strlit("run");
    reveal_strlit("filepath");
    reveal_strlit("file_path");
    reveal_strlit("filename");
    reveal_strlit("path");
    reveal_strlit("directory");
    reveal_strlit("folder");
    reveal_strlit("regex");
    reveal_strlit("pattern");
    reveal_strlit("grep");
    reveal_strlit("output_file");
    reveal_strlit("outfile");
    reveal_strlit("out");
    reveal_strlit("input_file");
    reveal_strlit("infile");
    if usual_name(k) {
        assert("command"@.len() == 7);
        assert("file"@.len() == 4);
        assert("dir"@.len() == 3);
        assert("query"@.len() == 5);
        assert("output"@.len() == 6);
        assert("input"@.len() == 5);
        assert("cmd"@.len() == 3);
        assert("shell"@.len() == 5);
        assert("exec"@.len() == 4);
        assert("run"@.len() == 3);
        assert("filepath"@.len() == 8);
        assert("file_path"@.len() == 9);
        assert("filename"@.len() == 8);
        assert("path"@.len() == 4);
        assert("directory"@.len() == 9);
        assert("folder"@.len() == 6);
        assert("regex"@.len() == 5);
        assert("pattern"@.len() == 7);
        assert("grep"@.len() == 4);
        assert("output_file"@.len() == 11);
        assert("outfile"@.len() == 7);
        assert("out"@.len() == 3);
        assert("input_file"@.len() == 10);
        assert("infile"@.len() == 6);
        assert("dir"@[0] == 'd' && "cmd"@[0] == 'c' && "run"@[0] == 'r' && "out"@[0] == 'o');
        assert("file"@[0] == 'f' && "exec"@[0] == 'e' && "path"@[0] == 'p' && "grep"@[0] == 'g');
        assert("query"@[0] == 'q' && "input"@[0] == 'i' && "shell"@[0] == 's' && "regex"@[0]
            == 'r');
        assert("output"@[0] == 'o' && "folder"@[0] == 'f' && "infile"@[0] == 'i');
        assert("command"@[0] == 'c' && "outfile"@[0] == 'o' && "pattern"@[0] == 'p');
        lemma_not_listed4(k, "cmd"@, "shell"@, "exec"@, "run"@);
        lemma_not_listed4(k, "filepath"@, "file_path"@, "filename"@, "path"@);
        lemma_not_listed2(k, "directory"@, "folder"@);
        lemma_not_listed3(k, "regex"@, "pattern"@, "grep"@);
        lemma_not_listed3(k, "output_file"@, "outfile"@, "out"@);
        lemma_not_listed2(k, "input_file"@, "infile"@);
    }
}

proof fn lemma_not_listed2(k: Seq<char>, a: Seq<char>, b: Seq<char>)
    requires
        k != a,
        k != b,
    ensures
        !seq![a, b].contains(k),
{
}

proof fn lemma_not_listed3(k: Seq<char>, a: Seq<char>, b: Seq<char>, c: Seq<char>)
    requires
        k != a,
        k != b,
        k != c,
    ensures
        !seq![a, b, c].contains(k),
{
}

proof fn lemma_not_listed4(k: Seq<char>, a: Seq<char>, b: Seq<char>, c: Seq<char>, d: Seq<char>)
    requires
        k != a,
        k != b,
        k != c,
        k != d,
    ensures
        !seq![a, b, c, d].contains(k),
{
}

/// The usual names keep the values that they have, and the names that are neither usual nor
/// aliases are left alone.
pub proof fn lemma_coercion_keeps(m: Map<Seq<char>, JsonView>, k: Seq<char>)
    ensures
        m.contains_key(k) && !alias_name(k) ==> coerced_map(m).contains_key(k) && coerced_map(m)[k]
            == m[k],
        !m.contains_key(k) && !usual_name(k) ==> !coerced_map(m).contains_key(k),
{
    lemma_names_apart("command"@);
    lemma_names_apart("file"@);
    lemma_names_apart("dir"@);
    lemma_names_apart("query"@);
    lemma_names_apart("output"@);
    lemma_names_apart("input"@);
    let m1 = renamed(m, command_aliases(), "command"@);
    let m2 = renamed(m1, file_aliases(), "file"@);
    let m3 = renamed(m2, dir_aliases(), "dir"@);
    let m4 = renamed(m3, query_aliases(), "query"@);
    let m5 = renamed(m4, output_aliases(), "output"@);
    lemma_renamed(m, command_aliases(), "command"@, k);
    lemma_renamed(m1, file_aliases(), "file"@, k);
    lemma_renamed(m2, dir_aliases(), "dir"@, k);
    lemma_renamed(m3, query_aliases(), "query"@, k);
    lemma_renamed(m4, output_aliases(), "output"@, k);
    lemma_renamed(m5, input_aliases(), "input"@, k);
}

/// The aliases of a usual name.
pub open spec fn aliases_of(target: Seq<char>) -> Seq<Seq<char>> {
    if target == "command"@ {
        command_aliases()
    } else if target == "file"@ {
        file_aliases()
    } else if target == "dir"@ {
        dir_aliases()
    } else if target == "query"@ {
        query_aliases()
    } else if target == "output"@ {
        output_aliases()
    } else {
        input_aliases()
    }
}

/// No alias stands for two names.
proof fn lemma_aliases_apart(k: Seq<char>)
    ensures
        command_aliases().contains(k) ==> !file_aliases().contains(k),
        command_aliases().contains(k) || file_aliases().contains(k) ==> !dir_aliases().contains(k),
        command_aliases().contains(k) || file_aliases().contains(k) || dir_aliases().contains(k)
            ==> !query_aliases().contains(k),
        command_aliases().contains(k) || file_aliases().contains(k) || dir_aliases().contains(k)
            || query_aliases().contains(k) ==> !output_aliases().contains(k),
        command_aliases().contains(k) || file_aliases().contains(k) || dir_aliases().contains(k)
            || query_aliases().contains(k) || output_aliases().contains(k)
            ==> !input_aliases().contains(k),
{
    reveal_strlit("cmd");
    reveal_strlit("shell");
    reveal_strlit("exec");
    reveal_strlit("run");
    reveal_strlit("filepath");
    reveal_strlit("file_path");
    reveal_strlit("filename");
    reveal_strlit("path");
    reveal_strlit("directory");
    reveal_strlit("folder");
    reveal_strlit("regex");
    reveal_strlit("pattern");
    reveal_strlit("grep");
    reveal_strlit("output_file");
    reveal_strlit("outfile");
    reveal_strlit("out");
    reveal_strlit("input_file");
    reveal_strlit("infile");
    assert("cmd"@.len() == 3 && "cmd"@[0] == 'c');
    assert("shell"@.len() == 5 && "shell"@[0] == 's');
    assert("exec"@.len() == 4 && "exec"@[0] == 'e');
    assert("run"@.len() == 3 && "run"@[0] == 'r');
    assert("filepath"@.len() == 8 && "filepath"@[0] == 'f');
    assert("file_path"@.len() == 9 && "file_path"@[0] == 'f');
    assert("filename"@.len() == 8 && "filename"@[0] == 'f');
    assert("path"@.len() == 4 && "path"@[0] == 'p');
    assert("directory"@.len() == 9 && "directory"@[0] == 'd');
    assert("folder"@.len() == 6 && "folder"@[0] == 'f');
    assert("regex"@.len() == 5 && "regex"@[0] == 'r');
    assert("pattern"@.len() == 7 && "pattern"@[0] == 'p');
    assert("grep"@.len() == 4 && "grep"@[0] == 'g');
    assert("output_file"@.len() == 11 && "output_file"@[0] == 'o');
    assert("outfile"@.len() == 7 && "outfile"@[0] == 'o');
    assert("out"@.len() == 3 && "out"@[0] == 'o');
    assert("input_file"@.len() == 10 && "input_file"@[0] == 'i');
    assert("infile"@.len() == 6 && "infile"@[0] == 'i');
    if command_aliases().contains(k) {
        let i = choose|i: int| 0 <= i < command_aliases().len() && command_aliases()[i] == k;
        assert(k == "cmd"@ || k == "shell"@ || k == "exec"@ || k == "run"@);
        lemma_not_listed4(k, "filepath"@, "file_path"@, "filename"@, "path"@);
        lemma_not_listed2(k, "directory"@, "folder"@);
        lemma_not_listed3(k, "regex"@, "pattern"@, "grep"@);
        lemma_not_listed3(k, "output_file"@, "outfile"@, "out"@);
        lemma_not_listed2(k, "input_file"@, "infile"@);
    }
    if file_aliases().contains(k) {
        let i = choose|i: int| 0 <= i < file_aliases().len() && file_aliases()[i] == k;
        assert(k == "filepath"@ || k == "file_path"@ || k == "filename"@ || k == "path"@);
        lemma_not_listed4(k, "cmd"@, "shell"@, "exec"@, "run"@);
        lemma_not_listed2(k, "directory"@, "folder"@);
        lemma_not_listed3(k, "regex"@, "pattern"@, "grep"@);
        lemma_not_listed3(k, "output_file"@, "outfile"@, "out"@);
        lemma_not_listed2(k, "input_file"@, "infile"@);
    }
    if dir_aliases().contains(k) {
        let i = choose|i: int| 0 <= i < dir_aliases().len() && dir_aliases()[i] == k;
        assert(k == "directory"@ || k == "folder"@);
        lemma_not_listed4(k, "cmd"@, "shell"@, "exec"@, "run"@);
        lemma_not_listed4(k, "filepath"@, "file_path"@, "filename"@, "path"@);
        lemma_not_listed3(k, "regex"@, "pattern"@, "grep"@);
        lemma_not_listed3(k, "output_file"@, "outfile"@, "out"@);
        lemma_not_listed2(k, "input_file"@, "infile"@);
    }
    if query_aliases().contains(k) {
        let i = choose|i: int| 0 <= i < query_aliases().len() && query_aliases()[i] == k;
        assert(k == "regex"@ || k == "pattern"@ || k == "grep"@);
        lemma_not_listed4(k, "cmd"@, "shell"@, "exec"@, "run"@);
        lemma_not_listed4(k, "filepath"@, "file_path"@, "filename"@, "path"@);
        lemma_not_listed2(k, "directory"@, "folder"@);
        lemma_not_listed3(k, "output_file"@, "outfile"@, "out"@);
        lemma_not_listed2(k, "input_file"@, "infile"@);
    }
    if output_aliases().contains(k) {
        let i = choose|i: int| 0 <= i < output_aliases().len() && output_aliases()[i] == k;
        assert(k == "output_file"@ || k == "outfile"@ || k == "out"@);
        lemma_not_listed4(k, "cmd"@, "shell"@, "exec"@, "run"@);
        lemma_not_listed4(k, "filepath"@, "file_path"@, "filename"@, "path"@);
        lemma_not_listed2(k, "directory"@, "folder"@);
        lemma_not_listed3(k, "regex"@, "pattern"@, "grep"@);
        lemma_not_listed2(k, "input_file"@, "infile"@);
    }
    if input_aliases().contains(k) {
        let i = choose|i: int| 0 <= i < input_aliases().len() && input_aliases()[i] == k;
        assert(k == "input_file"@ || k == "infile"@);
        lemma_not_listed4(k, "cmd"@, "shell"@, "exec"@, "run"@);
        lemma_not_listed4(k, "filepath"@, "file_path"@, "filename"@, "path"@);
        lemma_not_listed2(k, "directory"@, "folder"@);
        lemma_not_listed3(k, "regex"@, "pattern"@, "grep"@);
        lemma_not_listed3(k, "output_file"@, "outfile"@, "out"@);
    }
}

/// No two usual names are the same.
proof fn lemma_usual_apart()
    ensures
        "command"@ != "file"@ && "command"@ != "dir"@ && "command"@ != "query"@,
        "command"@ != "output"@ && "command"@ != "input"@ && "file"@ != "dir"@,
        "file"@ != "query"@ && "file"@ != "output"@ && "file"@ != "input"@,
        "dir"@ != "query"@ && "dir"@ != "output"@ && "dir"@ != "input"@,
        "query"@ != "output"@ && "query"@ != "input"@ && "output"@ != "input"@,
{
    reveal_strlit("command");
    reveal_strlit("file");
    reveal_strlit("dir");
    reveal_strlit("query");
    reveal_strlit("output");
    reveal_strlit("input");
    assert("command"@.len() == 7 && "file"@.len() == 4 && "dir"@.len() == 3);
    assert("query"@.len() == 5 && "output"@.len() == 6 && "input"@.len() == 5);
    assert("query"@[0] == 'q' && "input"@[0] == 'i');
}

/// The first alias that is there gives its value to a usual name that is not there yet.
proof fn lemma_renamed_first(
    m: Map<Seq<char>, JsonView>,
    aliases: Seq<Seq<char>>,
    target: Seq<char>,
    i: int,
)
    requires
        !aliases.contains(target),
        0 <= i < aliases.len(),
        m.contains_key(aliases[i]),
        forall|j: int| 0 <= j < i ==> !m.contains_key(#[trigger] aliases[j]),
        !m.contains_key(target),
    ensures
        renamed(m, aliases, target) == m.remove(aliases[i]).insert(target, m[aliases[i]]),
    decreases aliases.len(),
{
    if i > 0 {
        let rest = aliases.drop_first();
        assert(!m.contains_key(aliases[0]));
        assert forall|x: Seq<char>| rest.contains(x) implies aliases.contains(x) by {
            let j = choose|j: int| 0 <= j < rest.len() && rest[j] == x;
            assert(aliases[j + 1] == x);
        }
        assert forall|j: int| 0 <= j < i - 1 implies !m.contains_key(#[trigger] rest[j]) by {
            assert(rest[j] == aliases[j + 1]);
        }
        lemma_renamed_first(m, rest, target, i - 1);
    }
}

/// An alias is renamed: where a usual name is not there, it gets the value of the first of
/// its aliases that is, and that alias is gone.
pub proof fn lemma_coercion_renames(m: Map<Seq<char>, JsonView>, target: Seq<char>, i: int)
    requires
        usual_name(target),
        !m.contains_key(target),
        0 <= i < aliases_of(target).len(),
        m.contains_key(aliases_of(target)[i]),
        forall|j: int| 0 <= j < i ==> !m.contains_key(#[trigger] aliases_of(target)[j]),
    ensures
        coerced_map(m).contains_key(target),
        coerced_map(m)[target] == m[aliases_of(target)[i]],
        !coerced_map(m).contains_key(aliases_of(target)[i]),
{
    let a = aliases_of(target)[i];
    assert(aliases_of(target).contains(a));
    lemma_names_apart(target);
    lemma_names_apart(a);
    lemma_aliases_apart(a);
    lemma_usual_apart();
    lemma_names_apart("command"@);
    lemma_names_apart("file"@);
    lemma_names_apart("dir"@);
    lemma_names_apart("query"@);
    lemma_names_apart("output"@);
    lemma_names_apart("input"@);
    let m1 = renamed(m, command_aliases(), "command"@);
    let m2 = renamed(m1, file_aliases(), "file"@);
    let m3 = renamed(m2, dir_aliases(), "dir"@);
    let m4 = renamed(m3, query_aliases(), "query"@);
    let m5 = renamed(m4, output_aliases(), "output"@);
    lemma_step(m, m, command_aliases(), "command"@, target, i);
    lemma_step(m, m1, file_aliases(), "file"@, target, i);
    lemma_step(m, m2, dir_aliases(), "dir"@, target, i);
    lemma_step(m, m3, query_aliases(), "query"@, target, i);
    lemma_step(m, m4, output_aliases(), "output"@, target, i);
    lemma_step(m, m5, input_aliases(), "input"@, target, i);
}

/// The alias still waits to be renamed.
spec fn pending(
    m: Map<Seq<char>, JsonView>,
    now: Map<Seq<char>, JsonView>,
    target: Seq<char>,
    i: int,
) -> bool {
    let aliases = aliases_of(target);
    &&& !now.contains_key(target)
    &&& now.contains_key(aliases[i])
    &&& now[aliases[i]] == m[aliases[i]]
    &&& forall|j: int| 0 <= j < i ==> !now.contains_key(#[trigger] aliases[j])
}

/// The alias has been renamed.
spec fn settled(
    m: Map<Seq<char>, JsonView>,
    now: Map<Seq<char>, JsonView>,
    target: Seq<char>,
    i: int,
) -> bool {
    let aliases = aliases_of(target);
    now.contains_key(target) && now[target] == m[aliases[i]] && !now.contains_key(aliases[i])
}

proof fn lemma_step(
    m: Map<Seq<char>, JsonView>,
    now: Map<Seq<char>, JsonView>,
    aliases: Seq<Seq<char>>,
    name: Seq<char>,
    target: Seq<char>,
    i: int,
)
    requires
        usual_name(target),
        usual_name(name),
        aliases == aliases_of(name),
        0 <= i < aliases_of(target).len(),
        !aliases.contains(name),
        !alias_name(name),
        !alias_name(target),
        forall|k: Seq<char>| #[trigger] aliases.contains(k) ==> alias_name(k),
        alias_name(aliases_of(target)[i]),
        name != target ==> !aliases.contains(aliases_of(target)[i]),
    ensures
        pending(m, now, target, i) ==> if name == target {
            settled(m, renamed(now, aliases, name), target, i)
        } else {
            pending(m, renamed(now, aliases, name), target, i)
        },
        settled(m, now, target, i) && name != target ==> settled(
            m,
            renamed(now, aliases, name),
            target,
            i,
        ),
{
    let a = aliases_of(target)[i];
    lemma_renamed(now, aliases, name, target);
    lemma_renamed(now, aliases, name, a);
    if pending(m, now, target, i) {
        if name == target {
            lemma_renamed_first(now, aliases, name, i);
        } else {
            assert forall|j: int| 0 <= j < i implies !renamed(now, aliases, name).contains_key(
                #[trigger] aliases_of(target)[j],
            ) by {
                let b = aliases_of(target)[j];
                assert(aliases_of(target).contains(b));
                lemma_renamed(now, aliases, name, b);
                lemma_names_apart(b);
            }
        }
    }
}

/// These are the other names that models use for an argument, in the order in which they count.
pub open spec fn other_names(target: Seq<char>, names: Seq<Seq<char>>) -> bool {
    ||| target == "command"@ && names == seq!["cmd"@, "shell"@, "exec"@, "run"@]
    ||| target == "file"@ && names == seq!["filepath"@, "file_path"@, "filename"@, "path"@]
    ||| target == "dir"@ && names == seq!["directory"@, "folder"@]
    ||| target == "query"@ && names == seq!["regex"@, "pattern"@, "grep"@]
    ||| target == "output"@ && names == seq!["output_file"@, "outfile"@, "out"@]
    ||| target == "input"@ && names == seq!["input_file"@, "infile"@]
}

/// Two objects hold the same under a name.
spec fn same_at(
    a: Map<Seq<char>, JsonView>,
    b: Map<Seq<char>, JsonView>,
    k: Seq<char>,
) -> bool {
    a.contains_key(k) == b.contains_key(k) && (a.contains_key(k) ==> a[k] == b[k])
}

/// Renaming by the first other name that is there: it goes, and the usual name gets its value
/// unless it has one.
proof fn lemma_renamed_at(
    m: Map<Seq<char>, JsonView>,
    aliases: Seq<Seq<char>>,
    target: Seq<char>,
    i: int,
)
    requires
        !aliases.contains(target),
        0 <= i < aliases.len(),
        m.contains_key(aliases[i]),
        forall|j: int| 0 <= j < i ==> !m.contains_key(#[trigger] aliases[j]),
    ensures
        renamed(m, aliases, target) == if m.contains_key(target) {
            m.remove(aliases[i])
        } else {
            m.remove(aliases[i]).insert(target, m[aliases[i]])
        },
    decreases aliases.len(),
{
    assert(aliases.contains(aliases[i]));
    if i > 0 {
        let rest = aliases.drop_first();
        assert(!m.contains_key(aliases[0]));
        assert forall|x: Seq<char>| rest.contains(x) implies aliases.contains(x) by {
            let j = choose|j: int| 0 <= j < rest.len() && rest[j] == x;
            assert(aliases[j + 1] == x);
        }
        assert forall|j: int| 0 <= j < i - 1 implies !m.contains_key(#[trigger] rest[j]) by {
            assert(rest[j] == aliases[j + 1]);
        }
        lemma_renamed_at(m, rest, target, i - 1);
    }
}

/// The object as it is when the other names of an argument are looked at.
spec fn before_group(m: Map<Seq<char>, JsonView>, target: Seq<char>) -> Map<Seq<char>, JsonView> {
    let m1 = renamed(m, command_aliases(), "command"@);
    let m2 = renamed(m1, file_aliases(), "file"@);
    let m3 = renamed(m2, dir_aliases(), "dir"@);
    let m4 = renamed(m3, query_aliases(), "query"@);
    let m5 = renamed(m4, output_aliases(), "output"@);
    if target == "command"@ {
        m
    } else if target == "file"@ {
        m1
    } else if target == "dir"@ {
        m2
    } else if target == "query"@ {
        m3
    } else if target == "output"@ {
        m4
    } else {
        m5
    }
}

/// What is done for one argument does not touch the names of another.
proof fn lemma_group_alone(m: Map<Seq<char>, JsonView>, target: Seq<char>, k: Seq<char>)
    requires
        usual_name(target),
        k == target || aliases_of(target).contains(k),
    ensures
        same_at(before_group(m, target), m, k),
        same_at(
            coerced_map(m),
            renamed(before_group(m, target), aliases_of(target), target),
            k,
        ),
{
    lemma_usual_apart();
    lemma_names_apart(k);
    lemma_names_apart("command"@);
    lemma_names_apart("file"@);
    lemma_names_apart("dir"@);
    lemma_names_apart("query"@);
    lemma_names_apart("output"@);
    lemma_names_apart("input"@);
    lemma_aliases_apart(k);
    let m1 = renamed(m, command_aliases(), "command"@);
    let m2 = renamed(m1, file_aliases(), "file"@);
    let m3 = renamed(m2, dir_aliases(), "dir"@);
    let m4 = renamed(m3, query_aliases(), "query"@);
    let m5 = renamed(m4, output_aliases(), "output"@);
    lemma_renamed(m, command_aliases(), "command"@, k);
    lemma_renamed(m1, file_aliases(), "file"@, k);
    lemma_renamed(m2, dir_aliases(), "dir"@, k);
    lemma_renamed(m3, query_aliases(), "query"@, k);
    lemma_renamed(m4, output_aliases(), "output"@, k);
    lemma_renamed(m5, input_aliases(), "input"@, k);
}

/// The arguments of a call get their usual names. Of the other names of an argument the first that
/// is there goes; its value is found under the usual name, unless that had one of its own, which
/// it keeps. Further other names stay.
pub proof fn lemma_usual_names(
    m: Map<Seq<char>, JsonView>,
    target: Seq<char>,
    names: Seq<Seq<char>>,
    i: int,
)
    requires
        other_names(target, names),
    ensures
        ({
            let r = coerced_map(m);
            &&& m.contains_key(target) ==> r.contains_key(target) && r[target] == m[target]
            &&& (forall|j: int| 0 <= j < names.len() ==> !m.contains_key(#[trigger] names[j]))
                ==> r.contains_key(target) == m.contains_key(target)
            &&& 0 <= i < names.len() && m.contains_key(names[i]) && (forall|j: int|
                0 <= j < i ==> !m.contains_key(#[trigger] names[j])) ==> {
                &&& !r.contains_key(names[i])
                &&& r.contains_key(target)
                &&& !m.contains_key(target) ==> r[target] == m[names[i]]
                &&& forall|j: int|
                    i < j < names.len() && m.contains_key(#[trigger] names[j]) ==> r.contains_key(
                        names[j],
                    ) && r[names[j]] == m[names[j]]
            }
        }),
{
    let r = coerced_map(m);
    lemma_usual_apart();
    lemma_names_apart(target);
    assert(names == aliases_of(target));
    let b = before_group(m, target);
    lemma_group_alone(m, target, target);
    assert forall|j: int| 0 <= j < names.len() implies same_at(b, m, #[trigger] names[j])
        && same_at(r, renamed(b, names, target), names[j]) by {
        assert(names.contains(names[j]));
        lemma_group_alone(m, target, names[j]);
    }
    assert(!names.contains(target)) by {
        if names.contains(target) {
            assert(alias_name(target));
        }
    }
    lemma_renamed(b, names, target, target);
    if 0 <= i < names.len() && m.contains_key(names[i]) && (forall|j: int|
        0 <= j < i ==> !m.contains_key(#[trigger] names[j])) {
        lemma_renamed_at(b, names, target, i);
        assert(names.contains(names[i]));
        lemma_other_names_apart(target, names);
        assert forall|j: int| i < j < names.len() && m.contains_key(#[trigger] names[j]) implies r.contains_key(
            names[j],
        ) && r[names[j]] == m[names[j]] by {
            assert(names[i] != names[j]);
            assert(names.contains(names[j]));
        }
    }
}

/// The other names of an argument all differ.
proof fn lemma_other_names_apart(target: Seq<char>, names: Seq<Seq<char>>)
    requires
        other_names(target, names),
    ensures
        forall|i: int, j: int|
            0 <= i < j < names.len() ==> #[trigger] names[i] != #[trigger] names[j],
{
    reveal_strlit("cmd");
    reveal_strlit("shell");
    reveal_strlit("exec");
    reveal_strlit("run");
    reveal_strlit("filepath");
    reveal_strlit("file_path");
    reveal_strlit("filename");
    reveal_strlit("path");
    reveal_strlit("directory");
    reveal_strlit("folder");
    reveal_strlit("regex");
    reveal_strlit("pattern");
    reveal_strlit("grep");
    reveal_strlit("output_file");
    reveal_strlit("outfile");
    reveal_strlit("out");
    reveal_strlit("input_file");
    reveal_strlit("infile");
    assert("cmd"@.len() == 3 && "cmd"@[0] == 'c');
    assert("shell"@.len() == 5);
    assert("exec"@.len() == 4);
    assert("run"@.len() == 3 && "run"@[0] == 'r');
    assert("filepath"@.len() == 8 && "filepath"@[4] == 'p');
    assert("file_path"@.len() == 9);
    assert("filename"@.len() == 8 && "filename"@[4] == 'n');
    assert("path"@.len() == 4);
    assert("directory"@.len() == 9);
    assert("folder"@.len() == 6);
    assert("regex"@.len() == 5);
    assert("pattern"@.len() == 7);
    assert("grep"@.len() == 4);
    assert("output_file"@.len() == 11);
    assert("outfile"@.len() == 7);
    assert("out"@.len() == 3);
    assert("input_file"@.len() == 10);
    assert("infile"@.len() == 6);
}

/// The name is that of an argument that holds a path, whatever its case.
pub open spec fn is_name_of_path(name: Seq<char>) -> bool {
    let k = lowercase(name);
    holds(k, "path"@) || holds(k, "file"@) || holds(k, "dir"@) || k == "cwd"@ || k == "root"@ || k
        == "output"@ || k == "input"@
}

/// The text leads upwards, into a directory of the system, to a home directory, past a null
/// character, or to a drive.
pub open spec fn leads_astray(s: Seq<char>) -> bool {
    let b = encode_utf8(lowercase(s));
    ||| holds(s, "../"@)
    ||| holds(s, "..\\"@)
    ||| "/"@.is_prefix_of(s) && (holds(s, "/etc/"@) || holds(s, "/var/"@) || holds(s, "/root/"@))
    ||| "~/"@.is_prefix_of(s)
    ||| "~\\"@.is_prefix_of(s)
    ||| holds(s, "\0"@)
    ||| b.len() >= 3 && b[1] == 0x3a && b[2] == 0x5c
}

proof fn lemma_bad_field(k: Seq<char>, v: JsonView)
    ensures
        bad_field(k, v) <==> is_name_of_path(k) && (v matches JsonView::String(s)
            && leads_astray(s)),
{
    let l = lowercase(k);
    lemma_holds(l, "path"@);
    lemma_holds(l, "file"@);
    lemma_holds(l, "dir"@);
    if let JsonView::String(s) = v {
        lemma_holds(s, "../"@);
        lemma_holds(s, "..\\"@);
        lemma_holds(s, "/etc/"@);
        lemma_holds(s, "/var/"@);
        lemma_holds(s, "/root/"@);
        lemma_holds(s, "\0"@);
    }
}

/// Arguments are polluted exactly where one that is named as a path leads astray, or where one
/// that is itself an object or a list is polluted. Plain values are not.
pub proof fn lemma_what_pollutes(m: Map<Seq<char>, JsonView>, items: Seq<JsonView>, s: Seq<char>)
    ensures
        polluted(JsonView::Object(m)) <==> exists|k: Seq<char>| #[trigger]
            m.contains_key(k) && ((is_name_of_path(k) && m[k] is String && leads_astray(
                m[k]->String_0,
            )) || polluted(m[k])),
        polluted(JsonView::Array(items)) <==> exists|i: int|
            0 <= i < items.len() && polluted(#[trigger] items[i]),
        !polluted(JsonView::String(s)),
        !polluted(JsonView::Null),
        forall|b: bool| !(#[trigger] polluted(JsonView::Bool(b))),
{
    let j = JsonView::Object(m);
    if polluted(j) {
        let k = choose|k: Seq<char>|
            #![trigger j->Object_0.contains_key(k)]
            if j->Object_0.contains_key(k) {
                bad_field(k, j->Object_0[k]) || polluted(j->Object_0[k])
            } else {
                false
            };
        lemma_bad_field(k, m[k]);
        assert(m.contains_key(k));
    }
    if exists|k: Seq<char>| #[trigger]
        m.contains_key(k) && ((is_name_of_path(k) && m[k] is String && leads_astray(
            m[k]->String_0,
        )) || polluted(m[k])) {
        let k = choose|k: Seq<char>| #[trigger]
            m.contains_key(k) && ((is_name_of_path(k) && m[k] is String && leads_astray(
                m[k]->String_0,
            )) || polluted(m[k]));
        lemma_bad_field(k, m[k]);
        crate::toolcalls::lemma_polluted_by(m, k);
    }
    let a = JsonView::Array(items);
    if polluted(a) {
        let i = choose|i: int|
            #![trigger a->Array_0[i]]
            if 0 <= i < a->Array_0.len() {
                polluted(a->Array_0[i])
            } else {
                false
            };
        assert(polluted(items[i]));
    }
    if exists|i: int| 0 <= i < items.len() && polluted(#[trigger] items[i]) {
        let i = choose|i: int| 0 <= i < items.len() && polluted(#[trigger] items[i]);
        assert(a->Array_0[i] == items[i]);
    }
}

/// What is no object keeps its arguments; of an object each argument goes to its usual name.
pub proof fn lemma_only_objects_change(j: JsonView, m: Map<Seq<char>, JsonView>)
    ensures
        !(j is Object) ==> coerced(j) == j,
        coerced(JsonView::Object(m)) == JsonView::Object(coerced_map(m)),
{
}

/// What hardening a call does: repeats are dropped, paths are looked at, and arguments get their
/// usual names, all as told above.
pub proof fn lemma_hardening_calls(
    calls: Vec<ParsedToolCall>,
    kept: Vec<ParsedToolCall>,
    args: &Json,
    bad: bool,
    text: &str,
    danger: bool,
)
    requires
        call_ensures(dedup_tool_calls, (calls,), kept),
        call_ensures(has_path_pollution, (args,), bad),
        call_ensures(contains_path_danger, (text,), danger),
    ensures
        call_views(kept@) == deduped(call_views(calls@)),
        bad == polluted(args@),
        danger == leads_astray(text@),
{
    lemma_holds(text@, "../"@);
    lemma_holds(text@, "..\\"@);
    lemma_holds(text@, "/etc/"@);
    lemma_holds(text@, "/var/"@);
    lemma_holds(text@, "/root/"@);
    lemma_holds(text@, "\0"@);
}

/// Arguments are given their usual names in place.
pub proof fn lemma_coerce_call(args: &mut Json)
    requires
        call_ensures(coerce_argument_aliases, (args,), ()),
    ensures
        !(old(args)@ is Object) ==> final(args)@ == old(args)@,
        old(args)@ matches JsonView::Object(m) ==> final(args)@ == JsonView::Object(
            coerced_map(m),
        ),
{
}

} // verus!

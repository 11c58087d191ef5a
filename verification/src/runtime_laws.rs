//! What the configuration that is written for the agent promises: that it is read back as
//! what the pipeline declares.

use vstd::prelude::*;
use crate::numtext::{decimal, law_decimal_reads_back, value_of};
use crate::pipeline_spec::{NodeSpec, PipelineSpec};
use crate::runtime_yaml::{
    dispatcher_entries, dispatcher_entry, dispatcher_of, entry_port, input_of, ipc_address,
    is_placeable, node_entries, node_entry, node_of, output_of, port_of, push_port_of,
    runtime_text, stage_entries, stage_entry, tcp_address,
};
use crate::text::without_prefixes;

verus! {

/// There is no end of a line in the text.
pub open spec fn is_one_line(s: Seq<char>) -> bool {
    !s.contains('\n')
}

/// The text up to the first end of a line.
pub open spec fn first_line(s: Seq<char>) -> Seq<char>
    decreases s.len(),
{
    if s.len() == 0 || s[0] == '\n' {
        Seq::empty()
    } else {
        seq![s[0]] + first_line(s.skip(1))
    }
}

/// The text begins with the key.
pub open spec fn begins_with(s: Seq<char>, key: Seq<char>) -> bool {
    key.len() <= s.len() && s.take(key.len() as int) == key
}

/// What stands behind a key, in the first line that begins with it.
pub open spec fn setting(text: Seq<char>, key: Seq<char>) -> Option<Seq<char>>
    decreases text.len(),
{
    let line = first_line(text);
    if text.len() == 0 {
        None
    } else if begins_with(line, key) {
        Some(line.skip(key.len() as int))
    } else if line.len() < text.len() {
        setting(text.skip(line.len() as int + 1), key)
    } else {
        None
    }
}

/// What stands behind a key is that number.
pub open spec fn is_set_to(text: Seq<char>, key: Seq<char>, n: nat) -> bool {
    setting(text, key) matches Some(v) && v.len() > 0 && value_of(v) == n && forall|i: int|
        0 <= i < v.len() ==> '0' <= #[trigger] v[i] <= '9'
}

proof fn lemma_first_line(line: Seq<char>, rest: Seq<char>)
    requires
        is_one_line(line),
    ensures
        first_line(line + seq!['\n'] + rest) == line,
    decreases line.len(),
{
    let all = line + seq!['\n'] + rest;
    if line.len() > 0 {
        assert(all.skip(1) =~= line.skip(1) + seq!['\n'] + rest);
        assert(is_one_line(line.skip(1))) by {
            if line.skip(1).contains('\n') {
                let i = choose|i: int| 0 <= i < line.skip(1).len() && line.skip(1)[i] == '\n';
                assert(line[i + 1] == '\n');
            }
        }
        lemma_first_line(line.skip(1), rest);
        assert(line.contains(line[0]));
        assert(all[0] == line[0]);
        assert(seq![line[0]] + line.skip(1) =~= line);
    } else {
        assert(all[0] == '\n');
        assert(line =~= Seq::<char>::empty());
    }
}

/// Lines, each made of a key and what stands behind it.
pub open spec fn written(lines: Seq<(Seq<char>, Seq<char>)>) -> Seq<char>
    decreases lines.len(),
{
    if lines.len() == 0 {
        Seq::empty()
    } else {
        written(lines.drop_last()) + lines.last().0 + lines.last().1 + "\n"@
    }
}

proof fn lemma_written_front(lines: Seq<(Seq<char>, Seq<char>)>)
    requires
        lines.len() > 0,
    ensures
        written(lines) == lines[0].0 + lines[0].1 + seq!['\n'] + written(lines.skip(1)),
    decreases lines.len(),
{
    reveal_strlit("\n");
    assert("\n"@ =~= seq!['\n']);
    let front = lines[0].0 + lines[0].1 + seq!['\n'];
    if lines.len() == 1 {
        assert(lines.drop_last() =~= Seq::<(Seq<char>, Seq<char>)>::empty());
        assert(lines.skip(1) =~= Seq::<(Seq<char>, Seq<char>)>::empty());
        assert(written(lines) =~= front + written(lines.skip(1)));
    } else {
        lemma_written_front(lines.drop_last());
        assert(lines.drop_last().skip(1) =~= lines.skip(1).drop_last());
        assert(written(lines) =~= front + written(lines.skip(1)));
    }
}

/// What stands behind a key is found, where no line before begins with it, whatever
/// follows.
proof fn lemma_setting_before(lines: Seq<(Seq<char>, Seq<char>)>, more: Seq<char>, i: int)
    requires
        0 <= i < lines.len(),
        forall|j: int| 0 <= j <= i ==> is_one_line((#[trigger] lines[j]).0 + lines[j].1),
        forall|j: int|
            0 <= j < i ==> !begins_with((#[trigger] lines[j]).0 + lines[j].1, lines[i].0),
    ensures
        setting(written(lines) + more, lines[i].0) == Some(lines[i].1),
    decreases i,
{
    lemma_written_front(lines);
    let key = lines[i].0;
    let line = lines[0].0 + lines[0].1;
    let rest = written(lines.skip(1)) + more;
    let all = written(lines) + more;
    assert(all =~= line + seq!['\n'] + rest);
    assert(is_one_line(lines[0].0 + lines[0].1));
    lemma_first_line(line, rest);
    assert(all.skip(line.len() as int + 1) =~= rest);
    if i == 0 {
        assert(line.take(key.len() as int) =~= key);
        assert(line.skip(key.len() as int) =~= lines[0].1);
    } else {
        assert(!begins_with(lines[0].0 + lines[0].1, key));
        let tail = lines.skip(1);
        assert forall|j: int| 0 <= j <= i - 1 implies is_one_line(
            (#[trigger] tail[j]).0 + tail[j].1,
        ) by {
            assert(tail[j] == lines[j + 1]);
        }
        assert forall|j: int| 0 <= j < i - 1 implies !begins_with(
            (#[trigger] tail[j]).0 + tail[j].1,
            key,
        ) by {
            assert(tail[j] == lines[j + 1]);
        }
        lemma_setting_before(tail, more, i - 1);
    }
}

proof fn lemma_setting(lines: Seq<(Seq<char>, Seq<char>)>, i: int)
    requires
        0 <= i < lines.len(),
        forall|j: int| 0 <= j <= i ==> is_one_line((#[trigger] lines[j]).0 + lines[j].1),
        forall|j: int|
            0 <= j < i ==> !begins_with((#[trigger] lines[j]).0 + lines[j].1, lines[i].0),
    ensures
        setting(written(lines), lines[i].0) == Some(lines[i].1),
{
    lemma_setting_before(lines, Seq::empty(), i);
    assert(written(lines) + Seq::<char>::empty() =~= written(lines));
}

proof fn lemma_not_here(k: Seq<char>, v: Seq<char>, key: Seq<char>, d: int)
    requires
        0 <= d < k.len(),
        d < key.len(),
        k[d] != key[d],
    ensures
        !begins_with(k + v, key),
{
    if begins_with(k + v, key) {
        assert((k + v).take(key.len() as int)[d] == (k + v)[d]);
    }
}

proof fn lemma_joined_line(a: Seq<char>, b: Seq<char>)
    requires
        is_one_line(a),
        is_one_line(b),
    ensures
        is_one_line(a + b),
{
    if (a + b).contains('\n') {
        let i = choose|i: int| 0 <= i < (a + b).len() && (a + b)[i] == '\n';
        if i < a.len() {
            assert(a[i] == '\n');
        } else {
            assert(b[i - a.len()] == '\n');
        }
    }
}

proof fn lemma_number_line(n: nat)
    ensures
        is_one_line(decimal(n)),
        decimal(n).len() > 0,
        value_of(decimal(n)) == n,
        forall|i: int| 0 <= i < decimal(n).len() ==> '0' <= #[trigger] decimal(n)[i] <= '9',
{
    law_decimal_reads_back(n);
    if decimal(n).contains('\n') {
        let i = choose|i: int| 0 <= i < decimal(n).len() && decimal(n)[i] == '\n';
        assert(crate::numtext::is_digit(decimal(n)[i]));
    }
    assert forall|i: int| 0 <= i < decimal(n).len() implies '0' <= #[trigger] decimal(n)[i] <= '9' by {
        assert(crate::numtext::is_digit(decimal(n)[i]));
    }
}

proof fn lemma_bare_line(s: Seq<char>, p: Seq<char>)
    requires
        is_one_line(s),
    ensures
        is_one_line(without_prefixes(s, p)),
    decreases s.len(),
{
    if p.len() > 0 && crate::text::has_prefix(s, p) {
        let t = s.skip(p.len() as int);
        if t.contains('\n') {
            let i = choose|i: int| 0 <= i < t.len() && t[i] == '\n';
            assert(s[i + p.len()] == '\n');
        }
        lemma_bare_line(t, p);
    }
}

/// The texts of a pipeline that its configuration is made of are one line each.
pub open spec fn is_plain(spec: PipelineSpec) -> bool {
    &&& is_one_line(spec.collector@)
    &&& is_one_line(spec.ingress@)
    &&& forall|i: int|
        #![trigger spec.stages@[i]]
        0 <= i < spec.stages@.len() ==> {
            let s = spec.stages@[i];
            &&& is_one_line(s.name@)
            &&& is_one_line(s.placement@)
            &&& is_one_line(s.scaling.p99_ms@)
            &&& is_one_line(s.scaling.queue_up@)
            &&& is_one_line(s.scaling.queue_down@)
            &&& is_one_line(s.scaling.cooldown_up_s@)
            &&& is_one_line(s.scaling.cooldown_down_s@)
        }
    &&& forall|k: int| 0 <= k < spec.nodes@.len() ==> is_one_line((#[trigger] spec.nodes@[k]).host@)
}

proof fn lemma_addresses(spec: PipelineSpec, i: int)
    requires
        is_plain(spec),
        is_placeable(spec),
        0 <= i < spec.stages@.len(),
    ensures
        is_one_line(input_of(spec, i)),
        is_one_line(output_of(spec, i)),
        is_one_line(dispatcher_of(spec.stages@[i].name@)),
{
    lemma_node(spec, i);
    lemma_dispatcher_line(spec.stages@[i].name@);
    reveal_strlit("pull");
    reveal_strlit("push");
    lemma_ipc_line(dispatcher_of(spec.stages@[i].name@), "pull"@);
    lemma_tcp_line(node_of(spec, i).host@, push_port_of(spec, i) + 1);
    if i + 1 < spec.stages@.len() {
        lemma_node(spec, i + 1);
        lemma_dispatcher_line(spec.stages@[i + 1].name@);
        lemma_ipc_line(dispatcher_of(spec.stages@[i + 1].name@), "push"@);
        lemma_tcp_line(node_of(spec, i + 1).host@, push_port_of(spec, i + 1));
    }
}

proof fn lemma_node(spec: PipelineSpec, i: int)
    requires
        is_plain(spec),
        is_placeable(spec),
        0 <= i < spec.stages@.len(),
    ensures
        is_one_line(node_of(spec, i).host@),
        node_of(spec, i).name@ == spec.stages@[i].placement@,
        spec.nodes@.contains(node_of(spec, i)),
{
    let names = crate::pipeline_spec::node_names(spec.nodes@);
    let p = spec.stages@[i].placement@;
    assert(crate::config::has_name(names, p));
    crate::pipeline_spec::lemma_last_place(names, p);
    let c = crate::pipeline_spec::last_place(names, p);
    assert(names[c] == spec.nodes@[c].name@);
    assert(is_one_line(spec.nodes@[c].host@));
}

proof fn lemma_dispatcher_line(stage: Seq<char>)
    requires
        is_one_line(stage),
    ensures
        is_one_line(dispatcher_of(stage)),
{
    reveal_strlit("dispatch-");
    lemma_bare_line(stage, "fn-"@);
    lemma_joined_line("dispatch-"@, without_prefixes(stage, "fn-"@));
}

proof fn lemma_ipc_line(d: Seq<char>, end: Seq<char>)
    requires
        is_one_line(d),
        is_one_line(end),
    ensures
        is_one_line(ipc_address(d, end)),
{
    reveal_strlit("ipc:///tmp/epico-");
    reveal_strlit("-");
    lemma_joined_line("ipc:///tmp/epico-"@, d);
    lemma_joined_line("ipc:///tmp/epico-"@ + d, "-"@);
    lemma_joined_line("ipc:///tmp/epico-"@ + d + "-"@, end);
}

proof fn lemma_tcp_line(host: Seq<char>, port: nat)
    requires
        is_one_line(host),
    ensures
        is_one_line(tcp_address(host, port)),
{
    reveal_strlit("tcp://");
    reveal_strlit(":");
    lemma_number_line(port);
    lemma_joined_line("tcp://"@, host);
    lemma_joined_line("tcp://"@ + host, ":"@);
    lemma_joined_line("tcp://"@ + host + ":"@, decimal(port));
}

/// The lines of the entry of a stage.
pub open spec fn stage_lines(spec: PipelineSpec, wasm: Seq<char>, i: int) -> Seq<(Seq<char>, Seq<char>)> {
    let s = spec.stages@[i];
    seq![
        ("  - name: "@, s.name@),
        ("    wasm: "@, wasm),
        ("    placement: "@, s.placement@),
        ("    input: "@, input_of(spec, i)),
        ("    output: "@, output_of(spec, i)),
        ("    slo:"@, Seq::<char>::empty()),
        ("      p99_ms: "@, s.scaling.p99_ms@),
        ("      min_replicas: "@, decimal(s.scaling.min_replicas as nat)),
        ("      max_replicas: "@, decimal(s.scaling.max_replicas as nat)),
        ("      queue_up: "@, s.scaling.queue_up@),
        ("      queue_down: "@, s.scaling.queue_down@),
        ("      cooldown_up_s: "@, s.scaling.cooldown_up_s@),
        ("      cooldown_down_s: "@, s.scaling.cooldown_down_s@),
    ]
}

proof fn lemma_stage_written(spec: PipelineSpec, wasm: Seq<char>, i: int)
    ensures
        written(stage_lines(spec, wasm, i)) == stage_entry(spec, wasm, i),
{
    let s = spec.stages@[i];
    let ls = stage_lines(spec, wasm, i);
    reveal_strlit("\n");
    assert(written(ls.take(0)) =~= Seq::<char>::empty());
    reveal_strlit("\n      cooldown_down_s: ");
    reveal_strlit("\n      cooldown_up_s: ");
    reveal_strlit("\n      max_replicas: ");
    reveal_strlit("\n      min_replicas: ");
    reveal_strlit("\n      p99_ms: ");
    reveal_strlit("\n      queue_down: ");
    reveal_strlit("\n      queue_up: ");
    reveal_strlit("\n    input: ");
    reveal_strlit("\n    output: ");
    reveal_strlit("\n    placement: ");
    reveal_strlit("\n    slo:");
    reveal_strlit("\n    wasm: ");
    reveal_strlit("      cooldown_down_s: ");
    reveal_strlit("      cooldown_up_s: ");
    reveal_strlit("      max_replicas: ");
    reveal_strlit("      min_replicas: ");
    reveal_strlit("      p99_ms: ");
    reveal_strlit("      queue_down: ");
    reveal_strlit("      queue_up: ");
    reveal_strlit("    input: ");
    reveal_strlit("    output: ");
    reveal_strlit("    placement: ");
    reveal_strlit("    slo:");
    reveal_strlit("    wasm: ");
    reveal_strlit("  - name: ");
    let t0 = "  - name: "@ + s.name@;
    assert(ls.take(1).drop_last() =~= ls.take(0));
    assert(written(ls.take(1)) =~= t0 + "\n"@);
    assert("\n    wasm: "@ =~= "\n"@ + "    wasm: "@);
    let t1 = t0 + "\n    wasm: "@ + wasm;
    assert(ls.take(2).drop_last() =~= ls.take(1));
    assert(written(ls.take(2)) =~= t1 + "\n"@);
    assert("\n    placement: "@ =~= "\n"@ + "    placement: "@);
    let t2 = t1 + "\n    placement: "@ + s.placement@;
    assert(ls.take(3).drop_last() =~= ls.take(2));
    assert(written(ls.take(3)) =~= t2 + "\n"@);
    assert("\n    input: "@ =~= "\n"@ + "    input: "@);
    let t3 = t2 + "\n    input: "@ + input_of(spec, i);
    assert(ls.take(4).drop_last() =~= ls.take(3));
    assert(written(ls.take(4)) =~= t3 + "\n"@);
    assert("\n    output: "@ =~= "\n"@ + "    output: "@);
    let t4 = t3 + "\n    output: "@ + output_of(spec, i);
    assert(ls.take(5).drop_last() =~= ls.take(4));
    assert(written(ls.take(5)) =~= t4 + "\n"@);
    assert("\n    slo:"@ =~= "\n"@ + "    slo:"@);
    let t5 = t4 + "\n    slo:"@ + Seq::<char>::empty();
    assert(ls.take(6).drop_last() =~= ls.take(5));
    assert(written(ls.take(6)) =~= t5 + "\n"@);
    assert("\n      p99_ms: "@ =~= "\n"@ + "      p99_ms: "@);
    let t6 = t5 + "\n      p99_ms: "@ + s.scaling.p99_ms@;
    assert(ls.take(7).drop_last() =~= ls.take(6));
    assert(written(ls.take(7)) =~= t6 + "\n"@);
    assert("\n      min_replicas: "@ =~= "\n"@ + "      min_replicas: "@);
    let t7 = t6 + "\n      min_replicas: "@ + decimal(s.scaling.min_replicas as nat);
    assert(ls.take(8).drop_last() =~= ls.take(7));
    assert(written(ls.take(8)) =~= t7 + "\n"@);
    assert("\n      max_replicas: "@ =~= "\n"@ + "      max_replicas: "@);
    let t8 = t7 + "\n      max_replicas: "@ + decimal(s.scaling.max_replicas as nat);
    assert(ls.take(9).drop_last() =~= ls.take(8));
    assert(written(ls.take(9)) =~= t8 + "\n"@);
    assert("\n      queue_up: "@ =~= "\n"@ + "      queue_up: "@);
    let t9 = t8 + "\n      queue_up: "@ + s.scaling.queue_up@;
    assert(ls.take(10).drop_last() =~= ls.take(9));
    assert(written(ls.take(10)) =~= t9 + "\n"@);
    assert("\n      queue_down: "@ =~= "\n"@ + "      queue_down: "@);
    let t10 = t9 + "\n      queue_down: "@ + s.scaling.queue_down@;
    assert(ls.take(11).drop_last() =~= ls.take(10));
    assert(written(ls.take(11)) =~= t10 + "\n"@);
    assert("\n      cooldown_up_s: "@ =~= "\n"@ + "      cooldown_up_s: "@);
    let t11 = t10 + "\n      cooldown_up_s: "@ + s.scaling.cooldown_up_s@;
    assert(ls.take(12).drop_last() =~= ls.take(11));
    assert(written(ls.take(12)) =~= t11 + "\n"@);
    assert("\n      cooldown_down_s: "@ =~= "\n"@ + "      cooldown_down_s: "@);
    let t12 = t11 + "\n      cooldown_down_s: "@ + s.scaling.cooldown_down_s@;
    assert(ls.take(13).drop_last() =~= ls.take(12));
    assert(written(ls.take(13)) =~= t12 + "\n"@);
    assert(ls.take(13) =~= ls);
    reveal_strlit("\n    slo:\n      p99_ms: ");
    assert("\n    slo:\n      p99_ms: "@ =~= "\n    slo:"@ + "\n      p99_ms: "@);
    let u = t4 + "\n    slo:\n      p99_ms: "@ + s.scaling.p99_ms@;
    assert(u =~= t6);
}

proof fn lemma_stage_settings(spec: PipelineSpec, wasm: Seq<char>, i: int)
    requires
        is_plain(spec),
        is_placeable(spec),
        0 <= i < spec.stages@.len(),
        is_one_line(wasm),
    ensures
        setting(written(stage_lines(spec, wasm, i)), "  - name: "@) == Some(stage_lines(spec, wasm, i)[0].1),
        setting(written(stage_lines(spec, wasm, i)), "    wasm: "@) == Some(stage_lines(spec, wasm, i)[1].1),
        setting(written(stage_lines(spec, wasm, i)), "    placement: "@) == Some(stage_lines(spec, wasm, i)[2].1),
        setting(written(stage_lines(spec, wasm, i)), "    input: "@) == Some(stage_lines(spec, wasm, i)[3].1),
        setting(written(stage_lines(spec, wasm, i)), "    output: "@) == Some(stage_lines(spec, wasm, i)[4].1),
        setting(written(stage_lines(spec, wasm, i)), "    slo:"@) == Some(stage_lines(spec, wasm, i)[5].1),
        setting(written(stage_lines(spec, wasm, i)), "      p99_ms: "@) == Some(stage_lines(spec, wasm, i)[6].1),
        setting(written(stage_lines(spec, wasm, i)), "      min_replicas: "@) == Some(stage_lines(spec, wasm, i)[7].1),
        setting(written(stage_lines(spec, wasm, i)), "      max_replicas: "@) == Some(stage_lines(spec, wasm, i)[8].1),
        setting(written(stage_lines(spec, wasm, i)), "      queue_up: "@) == Some(stage_lines(spec, wasm, i)[9].1),
        setting(written(stage_lines(spec, wasm, i)), "      queue_down: "@) == Some(stage_lines(spec, wasm, i)[10].1),
        setting(written(stage_lines(spec, wasm, i)), "      cooldown_up_s: "@) == Some(stage_lines(spec, wasm, i)[11].1),
        setting(written(stage_lines(spec, wasm, i)), "      cooldown_down_s: "@) == Some(stage_lines(spec, wasm, i)[12].1),
{
    let s = spec.stages@[i];
    let ls = stage_lines(spec, wasm, i);
    reveal_strlit("  - name: ");
    reveal_strlit("    wasm: ");
    reveal_strlit("    placement: ");
    reveal_strlit("    input: ");
    reveal_strlit("    output: ");
    reveal_strlit("    slo:");
    reveal_strlit("      p99_ms: ");
    reveal_strlit("      min_replicas: ");
    reveal_strlit("      max_replicas: ");
    reveal_strlit("      queue_up: ");
    reveal_strlit("      queue_down: ");
    reveal_strlit("      cooldown_up_s: ");
    reveal_strlit("      cooldown_down_s: ");
    lemma_addresses(spec, i);
    assert(is_one_line(s.name@));
    assert(is_one_line(Seq::<char>::empty()));
    lemma_joined_line("  - name: "@, ls[0].1);
    lemma_joined_line("    wasm: "@, ls[1].1);
    lemma_joined_line("    placement: "@, ls[2].1);
    lemma_joined_line("    input: "@, ls[3].1);
    lemma_joined_line("    output: "@, ls[4].1);
    lemma_joined_line("    slo:"@, ls[5].1);
    lemma_joined_line("      p99_ms: "@, ls[6].1);
    lemma_number_line(s.scaling.min_replicas as nat);
    lemma_joined_line("      min_replicas: "@, ls[7].1);
    lemma_number_line(s.scaling.max_replicas as nat);
    lemma_joined_line("      max_replicas: "@, ls[8].1);
    lemma_joined_line("      queue_up: "@, ls[9].1);
    lemma_joined_line("      queue_down: "@, ls[10].1);
    lemma_joined_line("      cooldown_up_s: "@, ls[11].1);
    lemma_joined_line("      cooldown_down_s: "@, ls[12].1);
    lemma_setting(ls, 0);
    lemma_not_here("  - name: "@, ls[0].1, "    wasm: "@, 2);
    lemma_setting(ls, 1);
    lemma_not_here("  - name: "@, ls[0].1, "    placement: "@, 2);
    lemma_not_here("    wasm: "@, ls[1].1, "    placement: "@, 4);
    lemma_setting(ls, 2);
    lemma_not_here("  - name: "@, ls[0].1, "    input: "@, 2);
    lemma_not_here("    wasm: "@, ls[1].1, "    input: "@, 4);
    lemma_not_here("    placement: "@, ls[2].1, "    input: "@, 4);
    lemma_setting(ls, 3);
    lemma_not_here("  - name: "@, ls[0].1, "    output: "@, 2);
    lemma_not_here("    wasm: "@, ls[1].1, "    output: "@, 4);
    lemma_not_here("    placement: "@, ls[2].1, "    output: "@, 4);
    lemma_not_here("    input: "@, ls[3].1, "    output: "@, 4);
    lemma_setting(ls, 4);
    lemma_not_here("  - name: "@, ls[0].1, "    slo:"@, 2);
    lemma_not_here("    wasm: "@, ls[1].1, "    slo:"@, 4);
    lemma_not_here("    placement: "@, ls[2].1, "    slo:"@, 4);
    lemma_not_here("    input: "@, ls[3].1, "    slo:"@, 4);
    lemma_not_here("    output: "@, ls[4].1, "    slo:"@, 4);
    lemma_setting(ls, 5);
    lemma_not_here("  - name: "@, ls[0].1, "      p99_ms: "@, 2);
    lemma_not_here("    wasm: "@, ls[1].1, "      p99_ms: "@, 4);
    lemma_not_here("    placement: "@, ls[2].1, "      p99_ms: "@, 4);
    lemma_not_here("    input: "@, ls[3].1, "      p99_ms: "@, 4);
    lemma_not_here("    output: "@, ls[4].1, "      p99_ms: "@, 4);
    lemma_not_here("    slo:"@, ls[5].1, "      p99_ms: "@, 4);
    lemma_setting(ls, 6);
    lemma_not_here("  - name: "@, ls[0].1, "      min_replicas: "@, 2);
    lemma_not_here("    wasm: "@, ls[1].1, "      min_replicas: "@, 4);
    lemma_not_here("    placement: "@, ls[2].1, "      min_replicas: "@, 4);
    lemma_not_here("    input: "@, ls[3].1, "      min_replicas: "@, 4);
    lemma_not_here("    output: "@, ls[4].1, "      min_replicas: "@, 4);
    lemma_not_here("    slo:"@, ls[5].1, "      min_replicas: "@, 4);
    lemma_not_here("      p99_ms: "@, ls[6].1, "      min_replicas: "@, 6);
    lemma_setting(ls, 7);
    lemma_not_here("  - name: "@, ls[0].1, "      max_replicas: "@, 2);
    lemma_not_here("    wasm: "@, ls[1].1, "      max_replicas: "@, 4);
    lemma_not_here("    placement: "@, ls[2].1, "      max_replicas: "@, 4);
    lemma_not_here("    input: "@, ls[3].1, "      max_replicas: "@, 4);
    lemma_not_here("    output: "@, ls[4].1, "      max_replicas: "@, 4);
    lemma_not_here("    slo:"@, ls[5].1, "      max_replicas: "@, 4);
    lemma_not_here("      p99_ms: "@, ls[6].1, "      max_replicas: "@, 6);
    lemma_not_here("      min_replicas: "@, ls[7].1, "      max_replicas: "@, 7);
    lemma_setting(ls, 8);
    lemma_not_here("  - name: "@, ls[0].1, "      queue_up: "@, 2);
    lemma_not_here("    wasm: "@, ls[1].1, "      queue_up: "@, 4);
    lemma_not_here("    placement: "@, ls[2].1, "      queue_up: "@, 4);
    lemma_not_here("    input: "@, ls[3].1, "      queue_up: "@, 4);
    lemma_not_here("    output: "@, ls[4].1, "      queue_up: "@, 4);
    lemma_not_here("    slo:"@, ls[5].1, "      queue_up: "@, 4);
    lemma_not_here("      p99_ms: "@, ls[6].1, "      queue_up: "@, 6);
    lemma_not_here("      min_replicas: "@, ls[7].1, "      queue_up: "@, 6);
    lemma_not_here("      max_replicas: "@, ls[8].1, "      queue_up: "@, 6);
    lemma_setting(ls, 9);
    lemma_not_here("  - name: "@, ls[0].1, "      queue_down: "@, 2);
    lemma_not_here("    wasm: "@, ls[1].1, "      queue_down: "@, 4);
    lemma_not_here("    placement: "@, ls[2].1, "      queue_down: "@, 4);
    lemma_not_here("    input: "@, ls[3].1, "      queue_down: "@, 4);
    lemma_not_here("    output: "@, ls[4].1, "      queue_down: "@, 4);
    lemma_not_here("    slo:"@, ls[5].1, "      queue_down: "@, 4);
    lemma_not_here("      p99_ms: "@, ls[6].1, "      queue_down: "@, 6);
    lemma_not_here("      min_replicas: "@, ls[7].1, "      queue_down: "@, 6);
    lemma_not_here("      max_replicas: "@, ls[8].1, "      queue_down: "@, 6);
    lemma_not_here("      queue_up: "@, ls[9].1, "      queue_down: "@, 12);
    lemma_setting(ls, 10);
    lemma_not_here("  - name: "@, ls[0].1, "      cooldown_up_s: "@, 2);
    lemma_not_here("    wasm: "@, ls[1].1, "      cooldown_up_s: "@, 4);
    lemma_not_here("    placement: "@, ls[2].1, "      cooldown_up_s: "@, 4);
    lemma_not_here("    input: "@, ls[3].1, "      cooldown_up_s: "@, 4);
    lemma_not_here("    output: "@, ls[4].1, "      cooldown_up_s: "@, 4);
    lemma_not_here("    slo:"@, ls[5].1, "      cooldown_up_s: "@, 4);
    lemma_not_here("      p99_ms: "@, ls[6].1, "      cooldown_up_s: "@, 6);
    lemma_not_here("      min_replicas: "@, ls[7].1, "      cooldown_up_s: "@, 6);
    lemma_not_here("      max_replicas: "@, ls[8].1, "      cooldown_up_s: "@, 6);
    lemma_not_here("      queue_up: "@, ls[9].1, "      cooldown_up_s: "@, 6);
    lemma_not_here("      queue_down: "@, ls[10].1, "      cooldown_up_s: "@, 6);
    lemma_setting(ls, 11);
    lemma_not_here("  - name: "@, ls[0].1, "      cooldown_down_s: "@, 2);
    lemma_not_here("    wasm: "@, ls[1].1, "      cooldown_down_s: "@, 4);
    lemma_not_here("    placement: "@, ls[2].1, "      cooldown_down_s: "@, 4);
    lemma_not_here("    input: "@, ls[3].1, "      cooldown_down_s: "@, 4);
    lemma_not_here("    output: "@, ls[4].1, "      cooldown_down_s: "@, 4);
    lemma_not_here("    slo:"@, ls[5].1, "      cooldown_down_s: "@, 4);
    lemma_not_here("      p99_ms: "@, ls[6].1, "      cooldown_down_s: "@, 6);
    lemma_not_here("      min_replicas: "@, ls[7].1, "      cooldown_down_s: "@, 6);
    lemma_not_here("      max_replicas: "@, ls[8].1, "      cooldown_down_s: "@, 6);
    lemma_not_here("      queue_up: "@, ls[9].1, "      cooldown_down_s: "@, 6);
    lemma_not_here("      queue_down: "@, ls[10].1, "      cooldown_down_s: "@, 6);
    lemma_not_here("      cooldown_up_s: "@, ls[11].1, "      cooldown_down_s: "@, 15);
    lemma_setting(ls, 12);
}

/// The lines of the entry of a dispatcher.
pub open spec fn dispatcher_lines(spec: PipelineSpec, i: int) -> Seq<(Seq<char>, Seq<char>)> {
    seq![
        ("  - name: "@, dispatcher_of(spec.stages@[i].name@)),
        ("    push_port: "@, decimal(entry_port(spec, i))),
        ("    pull_port: "@, decimal(push_port_of(spec, i) + 1)),
        ("    ctrl_port: "@, decimal(push_port_of(spec, i) + 2)),
        ("    placement: "@, spec.stages@[i].placement@),
        ("    credit_window: "@, decimal(spec.credit_window as nat)),
        ("    batch_events: "@, decimal(spec.batch_events as nat)),
    ]
}

proof fn lemma_dispatcher_written(spec: PipelineSpec, i: int)
    ensures
        dispatcher_entry(spec, i) == written(dispatcher_lines(spec, i)) + (if i == 0 {
            "    push_uri: "@ + spec.ingress@ + "\n"@
        } else {
            Seq::empty()
        }),
{
    let ls = dispatcher_lines(spec, i);
    reveal_strlit("\n");
    assert(written(ls.take(0)) =~= Seq::<char>::empty());
    reveal_strlit("\n    batch_events: ");
    reveal_strlit("\n    credit_window: ");
    reveal_strlit("\n    ctrl_port: ");
    reveal_strlit("\n    placement: ");
    reveal_strlit("\n    pull_port: ");
    reveal_strlit("\n    push_port: ");
    reveal_strlit("    batch_events: ");
    reveal_strlit("    credit_window: ");
    reveal_strlit("    ctrl_port: ");
    reveal_strlit("    placement: ");
    reveal_strlit("    pull_port: ");
    reveal_strlit("    push_port: ");
    reveal_strlit("  - name: ");
    let t0 = "  - name: "@ + dispatcher_of(spec.stages@[i].name@);
    assert(ls.take(1).drop_last() =~= ls.take(0));
    assert(written(ls.take(1)) =~= t0 + "\n"@);
    assert("\n    push_port: "@ =~= "\n"@ + "    push_port: "@);
    let t1 = t0 + "\n    push_port: "@ + decimal(entry_port(spec, i));
    assert(ls.take(2).drop_last() =~= ls.take(1));
    assert(written(ls.take(2)) =~= t1 + "\n"@);
    assert("\n    pull_port: "@ =~= "\n"@ + "    pull_port: "@);
    let t2 = t1 + "\n    pull_port: "@ + decimal(push_port_of(spec, i) + 1);
    assert(ls.take(3).drop_last() =~= ls.take(2));
    assert(written(ls.take(3)) =~= t2 + "\n"@);
    assert("\n    ctrl_port: "@ =~= "\n"@ + "    ctrl_port: "@);
    let t3 = t2 + "\n    ctrl_port: "@ + decimal(push_port_of(spec, i) + 2);
    assert(ls.take(4).drop_last() =~= ls.take(3));
    assert(written(ls.take(4)) =~= t3 + "\n"@);
    assert("\n    placement: "@ =~= "\n"@ + "    placement: "@);
    let t4 = t3 + "\n    placement: "@ + spec.stages@[i].placement@;
    assert(ls.take(5).drop_last() =~= ls.take(4));
    assert(written(ls.take(5)) =~= t4 + "\n"@);
    assert("\n    credit_window: "@ =~= "\n"@ + "    credit_window: "@);
    let t5 = t4 + "\n    credit_window: "@ + decimal(spec.credit_window as nat);
    assert(ls.take(6).drop_last() =~= ls.take(5));
    assert(written(ls.take(6)) =~= t5 + "\n"@);
    assert("\n    batch_events: "@ =~= "\n"@ + "    batch_events: "@);
    let t6 = t5 + "\n    batch_events: "@ + decimal(spec.batch_events as nat);
    assert(ls.take(7).drop_last() =~= ls.take(6));
    assert(written(ls.take(7)) =~= t6 + "\n"@);
    assert(ls.take(7) =~= ls);
    assert(t6 + "\n"@ == written(ls));
}

proof fn lemma_dispatcher_apart(spec: PipelineSpec, i: int)
    requires
        is_plain(spec),
        is_placeable(spec),
        0 <= i < spec.stages@.len(),
    ensures
        forall|j: int|
            0 <= j < 7 ==> is_one_line((#[trigger] dispatcher_lines(spec, i)[j]).0 + dispatcher_lines(spec, i)[j].1),
        forall|j: int, k: int|
            0 <= k < j < 7 ==> !begins_with(
                (#[trigger] dispatcher_lines(spec, i)[k]).0 + dispatcher_lines(spec, i)[k].1,
                (#[trigger] dispatcher_lines(spec, i)[j]).0,
            ),
        forall|k: int|
            0 <= k < 7 ==> !begins_with(
                (#[trigger] dispatcher_lines(spec, i)[k]).0 + dispatcher_lines(spec, i)[k].1,
                "    push_uri: "@,
            ),
{
    let ls = dispatcher_lines(spec, i);
    reveal_strlit("  - name: ");
    reveal_strlit("    push_port: ");
    reveal_strlit("    pull_port: ");
    reveal_strlit("    ctrl_port: ");
    reveal_strlit("    placement: ");
    reveal_strlit("    credit_window: ");
    reveal_strlit("    batch_events: ");
    reveal_strlit("    push_uri: ");
    lemma_addresses(spec, i);
    assert(is_one_line(spec.stages@[i].placement@));
    lemma_joined_line("  - name: "@, ls[0].1);
    lemma_number_line(entry_port(spec, i));
    lemma_joined_line("    push_port: "@, ls[1].1);
    lemma_number_line(push_port_of(spec, i) + 1);
    lemma_joined_line("    pull_port: "@, ls[2].1);
    lemma_number_line(push_port_of(spec, i) + 2);
    lemma_joined_line("    ctrl_port: "@, ls[3].1);
    lemma_joined_line("    placement: "@, ls[4].1);
    lemma_number_line(spec.credit_window as nat);
    lemma_joined_line("    credit_window: "@, ls[5].1);
    lemma_number_line(spec.batch_events as nat);
    lemma_joined_line("    batch_events: "@, ls[6].1);
    lemma_not_here("  - name: "@, ls[0].1, "    push_port: "@, 2);
    lemma_not_here("  - name: "@, ls[0].1, "    pull_port: "@, 2);
    lemma_not_here("    push_port: "@, ls[1].1, "    pull_port: "@, 6);
    lemma_not_here("  - name: "@, ls[0].1, "    ctrl_port: "@, 2);
    lemma_not_here("    push_port: "@, ls[1].1, "    ctrl_port: "@, 4);
    lemma_not_here("    pull_port: "@, ls[2].1, "    ctrl_port: "@, 4);
    lemma_not_here("  - name: "@, ls[0].1, "    placement: "@, 2);
    lemma_not_here("    push_port: "@, ls[1].1, "    placement: "@, 5);
    lemma_not_here("    pull_port: "@, ls[2].1, "    placement: "@, 5);
    lemma_not_here("    ctrl_port: "@, ls[3].1, "    placement: "@, 4);
    lemma_not_here("  - name: "@, ls[0].1, "    credit_window: "@, 2);
    lemma_not_here("    push_port: "@, ls[1].1, "    credit_window: "@, 4);
    lemma_not_here("    pull_port: "@, ls[2].1, "    credit_window: "@, 4);
    lemma_not_here("    ctrl_port: "@, ls[3].1, "    credit_window: "@, 5);
    lemma_not_here("    placement: "@, ls[4].1, "    credit_window: "@, 4);
    lemma_not_here("  - name: "@, ls[0].1, "    batch_events: "@, 2);
    lemma_not_here("    push_port: "@, ls[1].1, "    batch_events: "@, 4);
    lemma_not_here("    pull_port: "@, ls[2].1, "    batch_events: "@, 4);
    lemma_not_here("    ctrl_port: "@, ls[3].1, "    batch_events: "@, 4);
    lemma_not_here("    placement: "@, ls[4].1, "    batch_events: "@, 4);
    lemma_not_here("    credit_window: "@, ls[5].1, "    batch_events: "@, 4);
    lemma_not_here("  - name: "@, ls[0].1, "    push_uri: "@, 2);
    lemma_not_here("    push_port: "@, ls[1].1, "    push_uri: "@, 9);
    lemma_not_here("    pull_port: "@, ls[2].1, "    push_uri: "@, 6);
    lemma_not_here("    ctrl_port: "@, ls[3].1, "    push_uri: "@, 4);
    lemma_not_here("    placement: "@, ls[4].1, "    push_uri: "@, 5);
    lemma_not_here("    credit_window: "@, ls[5].1, "    push_uri: "@, 4);
    lemma_not_here("    batch_events: "@, ls[6].1, "    push_uri: "@, 4);
}

/// The lines of the entry of a node.
pub open spec fn node_lines(n: NodeSpec) -> Seq<(Seq<char>, Seq<char>)> {
    seq![
        ("  - name: "@, n.name@),
        ("    host: "@, n.host@),
        ("    force_tcp: "@, (if n.force_tcp {
            "true"@
        } else {
            "false"@
        })),
    ]
}

proof fn lemma_node_written(n: NodeSpec)
    ensures
        written(node_lines(n)) == node_entry(n),
{
    let ls = node_lines(n);
    reveal_strlit("\n");
    assert(written(ls.take(0)) =~= Seq::<char>::empty());
    reveal_strlit("\n    force_tcp: ");
    reveal_strlit("\n    host: ");
    reveal_strlit("    force_tcp: ");
    reveal_strlit("    host: ");
    reveal_strlit("  - name: ");
    let t0 = "  - name: "@ + n.name@;
    assert(ls.take(1).drop_last() =~= ls.take(0));
    assert(written(ls.take(1)) =~= t0 + "\n"@);
    assert("\n    host: "@ =~= "\n"@ + "    host: "@);
    let t1 = t0 + "\n    host: "@ + n.host@;
    assert(ls.take(2).drop_last() =~= ls.take(1));
    assert(written(ls.take(2)) =~= t1 + "\n"@);
    assert("\n    force_tcp: "@ =~= "\n"@ + "    force_tcp: "@);
    let t2 = t1 + "\n    force_tcp: "@ + (if n.force_tcp {
            "true"@
        } else {
            "false"@
        });
    assert(ls.take(3).drop_last() =~= ls.take(2));
    assert(written(ls.take(3)) =~= t2 + "\n"@);
    assert(ls.take(3) =~= ls);
}

proof fn lemma_node_settings(n: NodeSpec)
    requires
        is_one_line(n.name@),
        is_one_line(n.host@),
    ensures
        setting(written(node_lines(n)), "  - name: "@) == Some(node_lines(n)[0].1),
        setting(written(node_lines(n)), "    host: "@) == Some(node_lines(n)[1].1),
        setting(written(node_lines(n)), "    force_tcp: "@) == Some(node_lines(n)[2].1),
{
    let ls = node_lines(n);
    reveal_strlit("  - name: ");
    reveal_strlit("    host: ");
    reveal_strlit("    force_tcp: ");
    reveal_strlit("true");
    reveal_strlit("false");
    lemma_joined_line("  - name: "@, ls[0].1);
    lemma_joined_line("    host: "@, ls[1].1);
    lemma_joined_line("    force_tcp: "@, ls[2].1);
    lemma_setting(ls, 0);
    lemma_not_here("  - name: "@, ls[0].1, "    host: "@, 2);
    lemma_setting(ls, 1);
    lemma_not_here("  - name: "@, ls[0].1, "    force_tcp: "@, 2);
    lemma_not_here("    host: "@, ls[1].1, "    force_tcp: "@, 4);
    lemma_setting(ls, 2);
}

/// Law: what is written of a stage is read back as what the pipeline declares of it: its
/// name, its component, its place, its least and its greatest number of replicas,
/// and its thresholds.
pub proof fn law_stages_are_read_back(spec: PipelineSpec, wasm: Seq<char>, i: int)
    requires
        is_plain(spec),
        is_placeable(spec),
        0 <= i < spec.stages@.len(),
        is_one_line(wasm),
    ensures
        ({
            let text = stage_entry(spec, wasm, i);
            let s = spec.stages@[i];
            &&& setting(text, "  - name: "@) == Some(s.name@)
            &&& setting(text, "    wasm: "@) == Some(wasm)
            &&& setting(text, "    placement: "@) == Some(s.placement@)
            &&& is_set_to(text, "      min_replicas: "@, s.scaling.min_replicas as nat)
            &&& is_set_to(text, "      max_replicas: "@, s.scaling.max_replicas as nat)
            &&& setting(text, "      p99_ms: "@) == Some(s.scaling.p99_ms@)
            &&& setting(text, "      queue_up: "@) == Some(s.scaling.queue_up@)
            &&& setting(text, "      queue_down: "@) == Some(s.scaling.queue_down@)
            &&& setting(text, "      cooldown_up_s: "@) == Some(s.scaling.cooldown_up_s@)
            &&& setting(text, "      cooldown_down_s: "@) == Some(s.scaling.cooldown_down_s@)
        }),
{
    lemma_stage_written(spec, wasm, i);
    lemma_stage_settings(spec, wasm, i);
    lemma_number_line(spec.stages@[i].scaling.min_replicas as nat);
    lemma_number_line(spec.stages@[i].scaling.max_replicas as nat);
}

/// The lines of the entry of a dispatcher, all of them.
spec fn all_dispatcher_lines(spec: PipelineSpec, i: int) -> Seq<(Seq<char>, Seq<char>)> {
    if i == 0 {
        dispatcher_lines(spec, i).push(("    push_uri: "@, spec.ingress@))
    } else {
        dispatcher_lines(spec, i)
    }
}

proof fn lemma_all_dispatcher_lines(spec: PipelineSpec, i: int)
    requires
        is_plain(spec),
        is_placeable(spec),
        0 <= i < spec.stages@.len(),
    ensures
        written(all_dispatcher_lines(spec, i)) == dispatcher_entry(spec, i),
        forall|j: int|
            0 <= j < 7 ==> setting(
                dispatcher_entry(spec, i),
                (#[trigger] dispatcher_lines(spec, i)[j]).0,
            ) == Some(dispatcher_lines(spec, i)[j].1),
        i == 0 ==> setting(dispatcher_entry(spec, i), "    push_uri: "@) == Some(spec.ingress@),
{
    let ls = dispatcher_lines(spec, i);
    let all = all_dispatcher_lines(spec, i);
    lemma_dispatcher_written(spec, i);
    let e = dispatcher_entry(spec, i);
    if i == 0 {
        assert(all.drop_last() =~= ls);
        assert(written(all) == written(ls) + "    push_uri: "@ + spec.ingress@ + "\n"@);
        assert(e =~= written(all));
    } else {
        assert(e =~= written(all));
    }
    lemma_dispatcher_apart(spec, i);
    assert forall|j: int| 0 <= j < 7 implies setting(e, (#[trigger] ls[j]).0) == Some(ls[j].1) by {
        assert(all[j] == ls[j]);
        assert forall|k: int| 0 <= k <= j implies is_one_line((#[trigger] all[k]).0 + all[k].1) by {
            assert(all[k] == ls[k]);
        }
        assert forall|k: int| 0 <= k < j implies !begins_with(
            (#[trigger] all[k]).0 + all[k].1,
            all[j].0,
        ) by {
            assert(all[k] == ls[k]);
        }
        lemma_setting(all, j);
    }
    if i == 0 {
        reveal_strlit("    push_uri: ");
        lemma_joined_line("    push_uri: "@, spec.ingress@);
        assert forall|k: int| 0 <= k <= 7 implies is_one_line((#[trigger] all[k]).0 + all[k].1) by {
            if k < 7 {
                assert(all[k] == ls[k]);
            }
        }
        assert forall|k: int| 0 <= k < 7 implies !begins_with(
            (#[trigger] all[k]).0 + all[k].1,
            all[7].0,
        ) by {
            assert(all[k] == ls[k]);
        }
        lemma_setting(all, 7);
    }
}

/// Law: what is written of a stage's dispatcher is read back: its name, its three ports,
/// where it is placed, and how much it may have under way. The first dispatcher is
/// bound where the pipeline is entered.
pub proof fn law_dispatchers_are_read_back(spec: PipelineSpec, i: int)
    requires
        is_plain(spec),
        is_placeable(spec),
        0 <= i < spec.stages@.len(),
    ensures
        ({
            let text = dispatcher_entry(spec, i);
            let base = spec.port_base + 3 * i;
            &&& setting(text, "  - name: "@) == Some(dispatcher_of(spec.stages@[i].name@))
            &&& i > 0 || port_of(spec.ingress@) is None ==> is_set_to(
                text,
                "    push_port: "@,
                base as nat,
            )
            &&& i == 0 && port_of(spec.ingress@) is Some ==> is_set_to(
                text,
                "    push_port: "@,
                port_of(spec.ingress@)->0,
            )
            &&& is_set_to(text, "    pull_port: "@, (base + 1) as nat)
            &&& is_set_to(text, "    ctrl_port: "@, (base + 2) as nat)
            &&& setting(text, "    placement: "@) == Some(spec.stages@[i].placement@)
            &&& is_set_to(text, "    credit_window: "@, spec.credit_window as nat)
            &&& is_set_to(text, "    batch_events: "@, spec.batch_events as nat)
            &&& i == 0 ==> setting(text, "    push_uri: "@) == Some(spec.ingress@)
        }),
{
    lemma_all_dispatcher_lines(spec, i);
    let ls = dispatcher_lines(spec, i);
    let e = dispatcher_entry(spec, i);
    assert(setting(e, ls[0].0) == Some(ls[0].1));
    assert(setting(e, ls[1].0) == Some(ls[1].1));
    assert(setting(e, ls[2].0) == Some(ls[2].1));
    assert(setting(e, ls[3].0) == Some(ls[3].1));
    assert(setting(e, ls[4].0) == Some(ls[4].1));
    assert(setting(e, ls[5].0) == Some(ls[5].1));
    assert(setting(e, ls[6].0) == Some(ls[6].1));
    lemma_number_line(entry_port(spec, i));
    lemma_number_line(push_port_of(spec, i) + 1);
    lemma_number_line(push_port_of(spec, i) + 2);
    lemma_number_line(spec.credit_window as nat);
    lemma_number_line(spec.batch_events as nat);
}

/// Law: what is written of a node is read back.
pub proof fn law_nodes_are_read_back(n: NodeSpec)
    requires
        is_one_line(n.name@),
        is_one_line(n.host@),
    ensures
        setting(node_entry(n), "  - name: "@) == Some(n.name@),
        setting(node_entry(n), "    host: "@) == Some(n.host@),
        setting(node_entry(n), "    force_tcp: "@) == Some(
            if n.force_tcp {
                "true"@
            } else {
                "false"@
            },
        ),
{
    lemma_node_written(n);
    lemma_node_settings(n);
}

/// Law: the workers of a stage take events from where its dispatcher gives them out: under
/// its name, or at its node's host and the port that its entry names.
pub proof fn law_workers_reach_their_dispatcher(spec: PipelineSpec, wasm: Seq<char>, i: int)
    requires
        is_plain(spec),
        is_placeable(spec),
        0 <= i < spec.stages@.len(),
        is_one_line(wasm),
    ensures
        ({
            let from = setting(stage_entry(spec, wasm, i), "    input: "@);
            let name = setting(dispatcher_entry(spec, i), "  - name: "@);
            let port = setting(dispatcher_entry(spec, i), "    pull_port: "@);
            &&& from is Some && name is Some && port is Some
            &&& node_of(spec, i).force_tcp ==> from->0 == "tcp://"@ + node_of(spec, i).host@
                + ":"@ + port->0
            &&& !node_of(spec, i).force_tcp ==> from->0 == "ipc:///tmp/epico-"@ + name->0
                + "-"@ + "pull"@
            &&& node_of(spec, i).name@ == spec.stages@[i].placement@
        }),
{
    lemma_node(spec, i);
    lemma_stage_written(spec, wasm, i);
    lemma_stage_settings(spec, wasm, i);
    lemma_all_dispatcher_lines(spec, i);
    let ls = dispatcher_lines(spec, i);
    assert(setting(dispatcher_entry(spec, i), ls[0].0) == Some(ls[0].1));
    assert(setting(dispatcher_entry(spec, i), ls[2].0) == Some(ls[2].1));
}

/// Law: a stage sends to where the dispatcher of the next one takes events in: under its
/// name where the two share a node, and else at the next one's host and the port
/// that its entry names; the last stage sends to the collector.
pub proof fn law_stages_feed_the_next(spec: PipelineSpec, wasm: Seq<char>, i: int)
    requires
        is_plain(spec),
        is_placeable(spec),
        0 <= i < spec.stages@.len(),
        is_one_line(wasm),
    ensures
        ({
            let to = setting(stage_entry(spec, wasm, i), "    output: "@);
            &&& to is Some
            &&& i + 1 == spec.stages@.len() ==> to->0 == spec.collector@
            &&& i + 1 < spec.stages@.len() ==> {
                let name = setting(dispatcher_entry(spec, i + 1), "  - name: "@);
                let port = setting(dispatcher_entry(spec, i + 1), "    push_port: "@);
                let near = spec.stages@[i].placement@ == spec.stages@[i + 1].placement@
                    && !node_of(spec, i).force_tcp && !node_of(spec, i + 1).force_tcp;
                &&& name is Some && port is Some
                &&& near ==> to->0 == "ipc:///tmp/epico-"@ + name->0 + "-"@ + "push"@
                &&& !near ==> to->0 == "tcp://"@ + node_of(spec, i + 1).host@ + ":"@ + port->0
            }
        }),
{
    lemma_node(spec, i);
    lemma_stage_written(spec, wasm, i);
    lemma_stage_settings(spec, wasm, i);
    if i + 1 < spec.stages@.len() {
        lemma_node(spec, i + 1);
        lemma_all_dispatcher_lines(spec, i + 1);
        let ls = dispatcher_lines(spec, i + 1);
        assert(setting(dispatcher_entry(spec, i + 1), ls[0].0) == Some(ls[0].1));
        assert(setting(dispatcher_entry(spec, i + 1), ls[1].0) == Some(ls[1].1));
    }
}

/// The entries of the stages, one behind the other, from the first to the last.
pub open spec fn stages_in_order(
    spec: PipelineSpec,
    wasm: Seq<(Seq<char>, Seq<char>)>,
    from: int,
) -> Seq<char>
    decreases spec.stages@.len() - from,
{
    if from >= spec.stages@.len() || from < 0 {
        Seq::empty()
    } else {
        stage_entry(spec, wasm[from].1, from) + stages_in_order(spec, wasm, from + 1)
    }
}

proof fn lemma_stages_in_order(spec: PipelineSpec, wasm: Seq<(Seq<char>, Seq<char>)>, n: int)
    requires
        0 <= n <= spec.stages@.len(),
    ensures
        stage_entries(spec, wasm, spec.stages@.len() as int) == stage_entries(spec, wasm, n)
            + stages_in_order(spec, wasm, n),
    decreases spec.stages@.len() - n,
{
    if n < spec.stages@.len() {
        lemma_stages_in_order(spec, wasm, n + 1);
        assert(stage_entries(spec, wasm, n + 1) + stages_in_order(spec, wasm, n + 1)
            =~= stage_entries(spec, wasm, n) + stages_in_order(spec, wasm, n));
    } else {
        assert(stage_entries(spec, wasm, n) + Seq::<char>::empty() =~= stage_entries(
            spec,
            wasm,
            n,
        ));
    }
}

/// The entries of the dispatchers, one behind the other.
pub open spec fn dispatchers_in_order(spec: PipelineSpec, from: int) -> Seq<char>
    decreases spec.stages@.len() - from,
{
    if from >= spec.stages@.len() || from < 0 {
        Seq::empty()
    } else {
        dispatcher_entry(spec, from) + dispatchers_in_order(spec, from + 1)
    }
}

proof fn lemma_dispatchers_in_order(spec: PipelineSpec, n: int)
    requires
        0 <= n <= spec.stages@.len(),
    ensures
        dispatcher_entries(spec, spec.stages@.len() as int) == dispatcher_entries(spec, n)
            + dispatchers_in_order(spec, n),
    decreases spec.stages@.len() - n,
{
    if n < spec.stages@.len() {
        lemma_dispatchers_in_order(spec, n + 1);
        assert(dispatcher_entries(spec, n + 1) + dispatchers_in_order(spec, n + 1)
            =~= dispatcher_entries(spec, n) + dispatchers_in_order(spec, n));
    } else {
        assert(dispatcher_entries(spec, n) + Seq::<char>::empty() =~= dispatcher_entries(spec, n));
    }
}

proof fn lemma_last_sections(
    spec: PipelineSpec,
    wasm: Seq<(Seq<char>, Seq<char>)>,
    compile_mode: Option<Seq<char>>,
) -> (front: Seq<char>)
    ensures
        runtime_text(spec, wasm, compile_mode) == front + dispatcher_entries(
            spec,
            spec.stages@.len() as int,
        ) + "\n"@ + stage_entries(spec, wasm, spec.stages@.len() as int),
{
    let all = runtime_text(spec, wasm, compile_mode);
    let d = dispatcher_entries(spec, spec.stages@.len() as int);
    let p = stage_entries(spec, wasm, spec.stages@.len() as int);
    let front = all.take(all.len() - p.len() - "\n"@.len() - d.len());
    assert(all =~= front + d + "\n"@ + p);
    front
}

/// Law: the configuration ends with the dispatchers, one for every stage and in their order,
/// and then the pipeline: every stage that is declared, in its order, each with the
/// component that is its own.
pub proof fn law_the_pipeline_is_written_whole(
    spec: PipelineSpec,
    wasm: Seq<(Seq<char>, Seq<char>)>,
    compile_mode: Option<Seq<char>>,
) -> (front: Seq<char>)
    ensures
        runtime_text(spec, wasm, compile_mode) == front + ("dispatchers:\n"@
            + dispatchers_in_order(spec, 0)) + "\n"@ + ("pipeline:\n"@ + stages_in_order(
            spec,
            wasm,
            0,
        )),
{
    lemma_dispatchers_in_order(spec, 0);
    lemma_stages_in_order(spec, wasm, 0);
    lemma_last_sections(spec, wasm, compile_mode)
}

/// Law: the nodes are written one behind the other, in their order.
pub proof fn law_the_nodes_are_written_whole(nodes: Seq<NodeSpec>, n: NodeSpec)
    ensures
        node_entries(nodes.push(n)) == node_entries(nodes) + node_entry(n),
        node_entries(Seq::empty()) == "nodes:\n"@,
{
    assert(nodes.push(n).drop_last() =~= nodes);
}

/// The lines at the head of the configuration, with all that may be there.
spec fn head_lines(spec: PipelineSpec, threads: Seq<char>, mode: Seq<char>) -> Seq<(Seq<char>, Seq<char>)> {
    seq![
        ("# GENERATED by epico-cli from pipeline.yaml. Do not edit directly."@, Seq::<char>::empty()),
        ("# Source package: "@, spec.package@),
        (""@, Seq::<char>::empty()),
        ("this_host: "@, spec.this_host@),
        ("ingress:   "@, spec.ingress@),
        ("collector: "@, spec.collector@),
        ("resource_sample_interval_ms: "@, decimal(spec.resource_sample_interval_ms as nat)),
        ("event_format: "@, spec.event_format@),
        ("source_format: "@, spec.source_format@),
        ("ingress_mode: "@, spec.ingress_mode@),
        ("source_threads: "@, threads),
        ("compile_mode: "@, mode),
    ]
}

proof fn lemma_head_apart(spec: PipelineSpec, threads: Seq<char>, mode: Seq<char>)
    requires
        is_plain(spec),
        is_plain_head(spec),
        is_one_line(threads),
        is_one_line(mode),
    ensures
        forall|j: int|
            0 <= j < 12 ==> is_one_line((#[trigger] head_lines(spec, threads, mode)[j]).0 + head_lines(spec, threads, mode)[j].1),
        forall|j: int, k: int|
            3 <= j < 12 && 0 <= k < j ==> !begins_with(
                (#[trigger] head_lines(spec, threads, mode)[k]).0 + head_lines(spec, threads, mode)[k].1,
                (#[trigger] head_lines(spec, threads, mode)[j]).0,
            ),
{
    let ls = head_lines(spec, threads, mode);
    reveal_strlit("# GENERATED by epico-cli from pipeline.yaml. Do not edit directly.");
    reveal_strlit("# Source package: ");
    reveal_strlit("");
    reveal_strlit("this_host: ");
    reveal_strlit("ingress:   ");
    reveal_strlit("collector: ");
    reveal_strlit("resource_sample_interval_ms: ");
    reveal_strlit("event_format: ");
    reveal_strlit("source_format: ");
    reveal_strlit("ingress_mode: ");
    reveal_strlit("source_threads: ");
    reveal_strlit("compile_mode: ");
    lemma_number_line(spec.resource_sample_interval_ms as nat);
    assert(is_one_line(Seq::<char>::empty()));
    lemma_joined_line(
        "# GENERATED by epico-cli from pipeline.yaml. Do not edit directly."@,
        ls[0].1,
    );
    lemma_joined_line("# Source package: "@, ls[1].1);
    lemma_joined_line(""@, ls[2].1);
    lemma_joined_line("this_host: "@, ls[3].1);
    lemma_joined_line("ingress:   "@, ls[4].1);
    lemma_joined_line("collector: "@, ls[5].1);
    lemma_joined_line("resource_sample_interval_ms: "@, ls[6].1);
    lemma_joined_line("event_format: "@, ls[7].1);
    lemma_joined_line("source_format: "@, ls[8].1);
    lemma_joined_line("ingress_mode: "@, ls[9].1);
    lemma_joined_line("source_threads: "@, ls[10].1);
    lemma_joined_line("compile_mode: "@, ls[11].1);
    lemma_not_here(
        "# GENERATED by epico-cli from pipeline.yaml. Do not edit directly."@,
        ls[0].1,
        "this_host: "@,
        0,
    );
    lemma_not_here("# Source package: "@, ls[1].1, "this_host: "@, 0);
    lemma_not_here(
        "# GENERATED by epico-cli from pipeline.yaml. Do not edit directly."@,
        ls[0].1,
        "ingress:   "@,
        0,
    );
    lemma_not_here("# Source package: "@, ls[1].1, "ingress:   "@, 0);
    lemma_not_here("this_host: "@, ls[3].1, "ingress:   "@, 0);
    lemma_not_here(
        "# GENERATED by epico-cli from pipeline.yaml. Do not edit directly."@,
        ls[0].1,
        "collector: "@,
        0,
    );
    lemma_not_here("# Source package: "@, ls[1].1, "collector: "@, 0);
    lemma_not_here("this_host: "@, ls[3].1, "collector: "@, 0);
    lemma_not_here("ingress:   "@, ls[4].1, "collector: "@, 0);
    lemma_not_here(
        "# GENERATED by epico-cli from pipeline.yaml. Do not edit directly."@,
        ls[0].1,
        "resource_sample_interval_ms: "@,
        0,
    );
    lemma_not_here("# Source package: "@, ls[1].1, "resource_sample_interval_ms: "@, 0);
    lemma_not_here("this_host: "@, ls[3].1, "resource_sample_interval_ms: "@, 0);
    lemma_not_here("ingress:   "@, ls[4].1, "resource_sample_interval_ms: "@, 0);
    lemma_not_here("collector: "@, ls[5].1, "resource_sample_interval_ms: "@, 0);
    lemma_not_here(
        "# GENERATED by epico-cli from pipeline.yaml. Do not edit directly."@,
        ls[0].1,
        "event_format: "@,
        0,
    );
    lemma_not_here("# Source package: "@, ls[1].1, "event_format: "@, 0);
    lemma_not_here("this_host: "@, ls[3].1, "event_format: "@, 0);
    lemma_not_here("ingress:   "@, ls[4].1, "event_format: "@, 0);
    lemma_not_here("collector: "@, ls[5].1, "event_format: "@, 0);
    lemma_not_here("resource_sample_interval_ms: "@, ls[6].1, "event_format: "@, 0);
    lemma_not_here(
        "# GENERATED by epico-cli from pipeline.yaml. Do not edit directly."@,
        ls[0].1,
        "source_format: "@,
        0,
    );
    lemma_not_here("# Source package: "@, ls[1].1, "source_format: "@, 0);
    lemma_not_here("this_host: "@, ls[3].1, "source_format: "@, 0);
    lemma_not_here("ingress:   "@, ls[4].1, "source_format: "@, 0);
    lemma_not_here("collector: "@, ls[5].1, "source_format: "@, 0);
    lemma_not_here("resource_sample_interval_ms: "@, ls[6].1, "source_format: "@, 0);
    lemma_not_here("event_format: "@, ls[7].1, "source_format: "@, 0);
    lemma_not_here(
        "# GENERATED by epico-cli from pipeline.yaml. Do not edit directly."@,
        ls[0].1,
        "ingress_mode: "@,
        0,
    );
    lemma_not_here("# Source package: "@, ls[1].1, "ingress_mode: "@, 0);
    lemma_not_here("this_host: "@, ls[3].1, "ingress_mode: "@, 0);
    lemma_not_here("ingress:   "@, ls[4].1, "ingress_mode: "@, 7);
    lemma_not_here("collector: "@, ls[5].1, "ingress_mode: "@, 0);
    lemma_not_here("resource_sample_interval_ms: "@, ls[6].1, "ingress_mode: "@, 0);
    lemma_not_here("event_format: "@, ls[7].1, "ingress_mode: "@, 0);
    lemma_not_here("source_format: "@, ls[8].1, "ingress_mode: "@, 0);
    lemma_not_here(
        "# GENERATED by epico-cli from pipeline.yaml. Do not edit directly."@,
        ls[0].1,
        "source_threads: "@,
        0,
    );
    lemma_not_here("# Source package: "@, ls[1].1, "source_threads: "@, 0);
    lemma_not_here("this_host: "@, ls[3].1, "source_threads: "@, 0);
    lemma_not_here("ingress:   "@, ls[4].1, "source_threads: "@, 0);
    lemma_not_here("collector: "@, ls[5].1, "source_threads: "@, 0);
    lemma_not_here("resource_sample_interval_ms: "@, ls[6].1, "source_threads: "@, 0);
    lemma_not_here("event_format: "@, ls[7].1, "source_threads: "@, 0);
    lemma_not_here("source_format: "@, ls[8].1, "source_threads: "@, 7);
    lemma_not_here("ingress_mode: "@, ls[9].1, "source_threads: "@, 0);
    lemma_not_here(
        "# GENERATED by epico-cli from pipeline.yaml. Do not edit directly."@,
        ls[0].1,
        "compile_mode: "@,
        0,
    );
    lemma_not_here("# Source package: "@, ls[1].1, "compile_mode: "@, 0);
    lemma_not_here("this_host: "@, ls[3].1, "compile_mode: "@, 0);
    lemma_not_here("ingress:   "@, ls[4].1, "compile_mode: "@, 0);
    lemma_not_here("collector: "@, ls[5].1, "compile_mode: "@, 2);
    lemma_not_here("resource_sample_interval_ms: "@, ls[6].1, "compile_mode: "@, 0);
    lemma_not_here("event_format: "@, ls[7].1, "compile_mode: "@, 0);
    lemma_not_here("source_format: "@, ls[8].1, "compile_mode: "@, 0);
    lemma_not_here("ingress_mode: "@, ls[9].1, "compile_mode: "@, 0);
    lemma_not_here("source_threads: "@, ls[10].1, "compile_mode: "@, 0);
}

proof fn lemma_regroup(x: Seq<char>, e: Seq<char>, a: Seq<char>, b: Seq<char>, c: Seq<char>)
    ensures
        x + e + a + e + b + e + c == x + (e + a + e + b + e + c),
{
    assert(x + e + a + e + b + e + c =~= x + (e + a + e + b + e + c));
}

#[verifier::rlimit(60)]
#[verifier::spinoff_prover]
proof fn lemma_head_written(spec: PipelineSpec, wasm: Seq<(Seq<char>, Seq<char>)>, mode: Option<Seq<char>>, t: Seq<char>, m: Seq<char>) -> (more: Seq<char>)
    ensures
        runtime_text(spec, wasm, mode) == written(head_lines(spec, t, m).take(10)) + (match spec.source_threads {
            None => Seq::empty(),
            Some(t) => "source_threads: "@ + decimal(t as nat) + "\n"@,
        }) + (match mode {
            None => Seq::empty(),
            Some(m) => "compile_mode: "@ + m + "\n"@,
        }) + more,
{
    let ls = head_lines(spec, t, m);
    reveal_strlit("\n");
    assert(written(ls.take(0)) =~= Seq::<char>::empty());
    reveal_strlit("# GENERATED by epico-cli from pipeline.yaml. Do not edit directly.");
    reveal_strlit("# Source package: ");
    reveal_strlit("");
    reveal_strlit("this_host: ");
    reveal_strlit("ingress:   ");
    reveal_strlit("collector: ");
    reveal_strlit("resource_sample_interval_ms: ");
    reveal_strlit("event_format: ");
    reveal_strlit("source_format: ");
    reveal_strlit("ingress_mode: ");
    let whole = crate::runtime_yaml::RUNTIME_HEAD@;
    reveal_strlit(
        "# GENERATED by epico-cli from pipeline.yaml. Do not edit directly.\n# Source package: ",
    );
    assert(whole =~= "# GENERATED by epico-cli from pipeline.yaml. Do not edit directly."@ + "\n"@ + "# Source package: "@);
    assert(ls.take(1).drop_last() =~= ls.take(0));
    assert(ls.take(2).drop_last() =~= ls.take(1));
    assert(ls.take(3).drop_last() =~= ls.take(2));
    assert(ls.take(4).drop_last() =~= ls.take(3));
    assert(ls.take(5).drop_last() =~= ls.take(4));
    assert(ls.take(6).drop_last() =~= ls.take(5));
    assert(ls.take(7).drop_last() =~= ls.take(6));
    assert(ls.take(8).drop_last() =~= ls.take(7));
    assert(ls.take(9).drop_last() =~= ls.take(8));
    assert(ls.take(10).drop_last() =~= ls.take(9));
    assert(written(ls.take(1)) =~= "# GENERATED by epico-cli from pipeline.yaml. Do not edit directly."@ + "\n"@);
    let t1 = whole + spec.package@;
    assert(written(ls.take(2)) =~= t1 + "\n"@);
    assert(written(ls.take(3)) =~= t1 + "\n"@ + "\n"@);
    reveal_strlit("\n\nthis_host: ");
    assert("\n\nthis_host: "@ =~= "\n"@ + "\n"@ + "this_host: "@);
    let t3 = t1 + "\n\nthis_host: "@ + spec.this_host@;
    assert(written(ls.take(4)) =~= t3 + "\n"@);
    reveal_strlit("\ningress:   ");
    assert("\ningress:   "@ =~= "\n"@ + "ingress:   "@);
    let t4 = t3 + "\ningress:   "@ + spec.ingress@;
    assert(written(ls.take(5)) =~= t4 + "\n"@);
    reveal_strlit("\ncollector: ");
    assert("\ncollector: "@ =~= "\n"@ + "collector: "@);
    let t5 = t4 + "\ncollector: "@ + spec.collector@;
    assert(written(ls.take(6)) =~= t5 + "\n"@);
    reveal_strlit("\nresource_sample_interval_ms: ");
    assert("\nresource_sample_interval_ms: "@ =~= "\n"@ + "resource_sample_interval_ms: "@);
    let t6 = t5 + "\nresource_sample_interval_ms: "@ + decimal(spec.resource_sample_interval_ms as nat);
    assert(written(ls.take(7)) =~= t6 + "\n"@);
    reveal_strlit("\nevent_format: ");
    assert("\nevent_format: "@ =~= "\n"@ + "event_format: "@);
    let t7 = t6 + "\nevent_format: "@ + spec.event_format@;
    assert(written(ls.take(8)) =~= t7 + "\n"@);
    reveal_strlit("\nsource_format: ");
    assert("\nsource_format: "@ =~= "\n"@ + "source_format: "@);
    let t8 = t7 + "\nsource_format: "@ + spec.source_format@;
    assert(written(ls.take(9)) =~= t8 + "\n"@);
    reveal_strlit("\ningress_mode: ");
    assert("\ningress_mode: "@ =~= "\n"@ + "ingress_mode: "@);
    let t9 = t8 + "\ningress_mode: "@ + spec.ingress_mode@;
    assert(written(ls.take(10)) =~= t9 + "\n"@);
    let n = spec.stages@.len() as int;
    let more = "\n"@ + node_entries(spec.nodes@) + "\n"@ + dispatcher_entries(spec, n) + "\n"@ + stage_entries(spec, wasm, n);
    let x = written(ls.take(10)) + (match spec.source_threads {
        None => Seq::empty(),
        Some(t) => "source_threads: "@ + decimal(t as nat) + "\n"@,
    }) + (match mode {
        None => Seq::empty(),
        Some(m) => "compile_mode: "@ + m + "\n"@,
    });
    lemma_regroup(
        x,
        "\n"@,
        node_entries(spec.nodes@),
        dispatcher_entries(spec, n),
        stage_entries(spec, wasm, n),
    );
    more
}

/// The texts at the head of a configuration are one line each.
pub open spec fn is_plain_head(spec: PipelineSpec) -> bool {
    &&& is_one_line(spec.package@)
    &&& is_one_line(spec.this_host@)
    &&& is_one_line(spec.event_format@)
    &&& is_one_line(spec.source_format@)
    &&& is_one_line(spec.ingress_mode@)
}

#[verifier::rlimit(60)]
proof fn lemma_head_read(
    spec: PipelineSpec,
    text: Seq<char>,
    mode: Option<Seq<char>>,
    more: Seq<char>,
)
    requires
        is_plain(spec),
        is_plain_head(spec),
        mode matches Some(m) ==> is_one_line(m),
        ({
            let t = match spec.source_threads {
                None => Seq::empty(),
                Some(t) => decimal(t as nat),
            };
            let m = match mode {
                None => Seq::empty(),
                Some(m) => m,
            };
            text == written(head_lines(spec, t, m).take(10)) + (match spec.source_threads {
                None => Seq::empty(),
                Some(t) => "source_threads: "@ + decimal(t as nat) + "\n"@,
            }) + (match mode {
                None => Seq::empty(),
                Some(m) => "compile_mode: "@ + m + "\n"@,
            }) + more
        }),
    ensures
        ({
            &&& setting(text, "this_host: "@) == Some(spec.this_host@)
            &&& setting(text, "ingress:   "@) == Some(spec.ingress@)
            &&& setting(text, "collector: "@) == Some(spec.collector@)
            &&& is_set_to(
                text,
                "resource_sample_interval_ms: "@,
                spec.resource_sample_interval_ms as nat,
            )
            &&& setting(text, "event_format: "@) == Some(spec.event_format@)
            &&& setting(text, "source_format: "@) == Some(spec.source_format@)
            &&& setting(text, "ingress_mode: "@) == Some(spec.ingress_mode@)
            &&& spec.source_threads matches Some(t) ==> is_set_to(
                text,
                "source_threads: "@,
                t as nat,
            )
            &&& mode matches Some(m) ==> setting(text, "compile_mode: "@) == Some(m)
        }),
{
    let t = match spec.source_threads {
        None => Seq::empty(),
        Some(t) => decimal(t as nat),
    };
    let m = match mode {
        None => Seq::empty(),
        Some(m) => m,
    };
    let ls = head_lines(spec, t, m);
    assert(is_one_line(Seq::<char>::empty()));
    if let Some(n) = spec.source_threads {
        lemma_number_line(n as nat);
    }
    lemma_number_line(spec.resource_sample_interval_ms as nat);
    lemma_head_apart(spec, t, m);
    let head = ls.take(10);
    let a: Seq<char> = match spec.source_threads {
        None => Seq::empty(),
        Some(t) => "source_threads: "@ + decimal(t as nat) + "\n"@,
    };
    let b: Seq<char> = match mode {
        None => Seq::empty(),
        Some(m) => "compile_mode: "@ + m + "\n"@,
    };
    assert(text =~= written(head) + (a + b + more));
    assert forall|j: int| 0 <= j < 10 implies is_one_line((#[trigger] head[j]).0 + head[j].1) by {
        assert(head[j] == ls[j]);
    }
    assert forall|j: int, k: int| 3 <= j < 10 && 0 <= k < j implies !begins_with(
        (#[trigger] head[k]).0 + head[k].1,
        (#[trigger] head[j]).0,
    ) by {
        assert(head[j] == ls[j] && head[k] == ls[k]);
    }
    lemma_setting_before(head, a + b + more, 3);
    lemma_setting_before(head, a + b + more, 4);
    lemma_setting_before(head, a + b + more, 5);
    lemma_setting_before(head, a + b + more, 6);
    lemma_setting_before(head, a + b + more, 7);
    lemma_setting_before(head, a + b + more, 8);
    lemma_setting_before(head, a + b + more, 9);
    if spec.source_threads is Some {
        let longer = head.push(ls[10]);
        assert(longer.drop_last() =~= head);
        assert(text =~= written(longer) + (b + more));
        assert forall|j: int| 0 <= j <= 10 implies is_one_line(
            (#[trigger] longer[j]).0 + longer[j].1,
        ) by {
            assert(longer[j] == ls[j]);
        }
        assert forall|k: int| 0 <= k < 10 implies !begins_with(
            (#[trigger] longer[k]).0 + longer[k].1,
            longer[10].0,
        ) by {
            assert(longer[k] == ls[k] && longer[10] == ls[10]);
        }
        lemma_setting_before(longer, b + more, 10);
    }
    if mode is Some {
        let before = if spec.source_threads is Some {
            head.push(ls[10])
        } else {
            head
        };
        if spec.source_threads is Some {
            assert(before.drop_last() =~= head);
        }
        let longer = before.push(ls[11]);
        let n = before.len() as int;
        assert(longer.drop_last() =~= before);
        assert(written(before) =~= written(head) + a);
        assert(text =~= written(longer) + more);
        assert forall|j: int| 0 <= j <= n implies is_one_line(
            (#[trigger] longer[j]).0 + longer[j].1,
        ) by {
            assert(longer[j] == ls[if j < n {
                j
            } else {
                11
            }]);
        }
        assert forall|k: int| 0 <= k < n implies !begins_with(
            (#[trigger] longer[k]).0 + longer[k].1,
            longer[n].0,
        ) by {
            assert(longer[k] == ls[k] && longer[n] == ls[11]);
        }
        lemma_setting_before(longer, more, n);
    }
}

/// Law: the head of the configuration is read back as what the pipeline declares: where
/// events come in and go out, in which formats, and how often the use of resources
/// is sampled; and the number of source threads and the way of compiling, where they
/// are given.
pub proof fn law_the_head_is_read_back(
    spec: PipelineSpec,
    wasm: Seq<(Seq<char>, Seq<char>)>,
    mode: Option<Seq<char>>,
)
    requires
        is_plain(spec),
        is_plain_head(spec),
        mode matches Some(m) ==> is_one_line(m),
    ensures
        ({
            let text = runtime_text(spec, wasm, mode);
            &&& setting(text, "this_host: "@) == Some(spec.this_host@)
            &&& setting(text, "ingress:   "@) == Some(spec.ingress@)
            &&& setting(text, "collector: "@) == Some(spec.collector@)
            &&& is_set_to(
                text,
                "resource_sample_interval_ms: "@,
                spec.resource_sample_interval_ms as nat,
            )
            &&& setting(text, "event_format: "@) == Some(spec.event_format@)
            &&& setting(text, "source_format: "@) == Some(spec.source_format@)
            &&& setting(text, "ingress_mode: "@) == Some(spec.ingress_mode@)
            &&& spec.source_threads matches Some(t) ==> is_set_to(
                text,
                "source_threads: "@,
                t as nat,
            )
            &&& mode matches Some(m) ==> setting(text, "compile_mode: "@) == Some(m)
        }),
{
    let t = match spec.source_threads {
        None => Seq::empty(),
        Some(t) => decimal(t as nat),
    };
    let m = match mode {
        None => Seq::empty(),
        Some(m) => m,
    };
    let more = lemma_head_written(spec, wasm, mode, t, m);
    lemma_head_read(spec, runtime_text(spec, wasm, mode), mode, more);
}

} // verus!

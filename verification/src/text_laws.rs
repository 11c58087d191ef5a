//! What reading and writing short texts promises: what is written is what is read.

use vstd::prelude::*;
use crate::boundary::{bind_place, copy_place, host_and_port};
use crate::machine::{is_first_mark, part_count, parts_count};
use crate::numtext::{decimal, is_digit, law_decimal_reads_back, parsed};
use crate::orchestrate::{agent_call, all_param_args, compiled_place, flag_of, param_args, stem};
use crate::pipeline_spec::Yaml;
use crate::text::{has_prefix, is_last_mark, split_at_last, split_by, trimmed, without_prefix};

verus! {

/// Law: a number that is written is read as the same, where it is within the limit, and refused
/// where it is not.
pub proof fn law_numbers_read_back(n: nat, max: nat)
    ensures
        n <= max ==> parsed(decimal(n), max) == Some(n),
        n > max ==> parsed(decimal(n), max) is None,
{
    law_decimal_reads_back(n);
    let d = decimal(n);
    assert(is_digit(d[0]));
}

/// Law: a text is parted at the last of the marks, and put together again by it.
pub proof fn law_parts_at_the_last_mark(a: Seq<char>, mark: char, b: Seq<char>)
    requires
        !b.contains(mark),
    ensures
        split_at_last(a.push(mark) + b, mark) == Some((a, b)),
{
    let s = a.push(mark) + b;
    let n = a.len() as int;
    assert(s[n] == mark);
    assert(s.contains(mark));
    assert forall|k: int| n < k < s.len() implies s[k] != mark by {
        assert(s[k] == b[k - n - 1]);
    }
    assert(is_last_mark(s, mark, n));
    let i = choose|i: int| is_last_mark(s, mark, i);
    assert(i == n) by {
        if i < n {
            assert(s[n] != mark);
        } else if i > n {
            assert(s[i] != mark);
        }
    }
    assert(s.take(n) =~= a);
    assert(s.skip(n + 1) =~= b);
}

proof fn lemma_digits_only(n: nat, c: char)
    requires
        !is_digit(c),
    ensures
        !decimal(n).contains(c),
{
    law_decimal_reads_back(n);
    let d = decimal(n);
    if d.contains(c) {
        let i = choose|i: int| 0 <= i < d.len() && d[i] == c;
        assert(is_digit(d[i]));
    }
}

/// Law: an address by host and port is read as just these, and its copy is at the next port of
/// the same host.
pub proof fn law_copies_are_at_the_next_port(host: Seq<char>, port: nat)
    requires
        port <= u16::MAX,
    ensures
        host_and_port("tcp://"@ + host + ":"@ + decimal(port)) == Some((host, port)),
        copy_place("tcp://"@ + host + ":"@ + decimal(port)) == "tcp://"@ + host + ":"@ + decimal(
            port + 1,
        ),
        bind_place("tcp://"@ + host + ":"@ + decimal(port)) == "tcp://0.0.0.0:"@ + decimal(port),
{
    reveal_strlit("tcp://");
    reveal_strlit(":");
    let addr = "tcp://"@ + host + ":"@ + decimal(port);
    let rest = host.push(':') + decimal(port);
    assert(":"@ =~= seq![':']);
    assert(addr =~= "tcp://"@ + rest);
    assert(addr.take(6) =~= "tcp://"@);
    assert(addr.subrange(0, 6) =~= "tcp://"@);
    assert(addr.skip(6) =~= rest);
    lemma_digits_only(port, ':');
    law_parts_at_the_last_mark(host, ':', decimal(port));
    law_numbers_read_back(port, u16::MAX as nat);
    assert(has_prefix(addr, "tcp://"@));
    assert(without_prefix(addr, "tcp://"@) =~= rest);
    let whole = "tcp://"@ + host;
    assert(addr =~= whole.push(':') + decimal(port));
    law_parts_at_the_last_mark(whole, ':', decimal(port));
}

/// Law: a compiled component stands beside the one that it was compiled from, under the same
/// name.
pub proof fn law_compiled_components_stand_beside(dir: Seq<char>, name: Seq<char>)
    requires
        name.len() > 0,
        !name.contains('/'),
    ensures
        compiled_place(dir + "/"@ + name + ".wasm"@) == dir + "/"@ + name + ".cwasm"@,
{
    reveal_strlit("/");
    reveal_strlit(".wasm");
    reveal_strlit(".cwasm");
    reveal_strlit("wasm");
    let file = name + ".wasm"@;
    assert("/"@ =~= seq!['/']);
    assert(dir + "/"@ + name + ".wasm"@ =~= dir.push('/') + file);
    assert forall|k: int| 0 <= k < file.len() implies file[k] != '/' by {
        if k < name.len() {
            assert(name.contains(name[k]));
        } else {
            assert(file[k] == ".wasm"@[k - name.len()]);
        }
    }
    law_parts_at_the_last_mark(dir, '/', file);
    let ext = ".wasm"@.skip(1);
    assert forall|k: int| 0 <= k < ext.len() implies ext[k] != '.' by {}
    assert(file =~= name.push('.') + ext);
    law_parts_at_the_last_mark(name, '.', ext);
    assert(stem(file) == name);
}

proof fn lemma_trimmed_number(n: nat)
    ensures
        trimmed(decimal(n)) == decimal(n),
{
    law_decimal_reads_back(n);
    let d = decimal(n);
    assert(is_digit(d[0]));
    assert(is_digit(d[d.len() - 1]));
}

/// Law: a range of processors counts from its first to its last, and a single one counts once.
pub proof fn law_ranges_count_both_ends(a: nat, b: nat)
    requires
        a <= u64::MAX,
        b <= u64::MAX,
    ensures
        a <= b ==> part_count(decimal(a).push('-') + decimal(b)) == Some((b - a + 1) as nat),
        a > b ==> part_count(decimal(a).push('-') + decimal(b)) is None,
        part_count(decimal(a)) == Some(1nat),
{
    let s = decimal(a).push('-') + decimal(b);
    let n = decimal(a).len() as int;
    lemma_digits_only(a, '-');
    lemma_trimmed_number(a);
    lemma_trimmed_number(b);
    law_numbers_read_back(a, u64::MAX as nat);
    law_numbers_read_back(b, u64::MAX as nat);
    assert forall|k: int| 0 <= k < n implies s[k] != '-' by {
        assert(s[k] == decimal(a)[k]);
        assert(decimal(a).contains(decimal(a)[k]));
    }
    assert(is_first_mark(s, '-', n));
    let i = choose|i: int| is_first_mark(s, '-', i);
    assert(i == n) by {
        if i < n {
            assert(s[i] != '-');
        } else if i > n {
            assert(s[n] != '-');
        }
    }
    assert(s.take(n) =~= decimal(a));
    assert(s.skip(n + 1) =~= decimal(b));
    if exists|i: int| is_first_mark(decimal(a), '-', i) {
        let i = choose|i: int| is_first_mark(decimal(a), '-', i);
        assert(decimal(a).contains(decimal(a)[i]));
    }
}

/// Law: the processors of all parts of a list count together; an empty part counts none, and a
/// part that cannot be read spoils the list.
pub proof fn law_parts_count_together(parts: Seq<Seq<char>>, part: Seq<char>)
    ensures
        trimmed(part).len() == 0 ==> parts_count(parts.push(part)) == parts_count(parts),
        trimmed(part).len() > 0 && parts_count(parts) is Some && part_count(trimmed(part)) is Some
            ==> parts_count(parts.push(part)) == Some(
            parts_count(parts)->0 + part_count(trimmed(part))->0,
        ),
        trimmed(part).len() > 0 && part_count(trimmed(part)) is None ==> parts_count(
            parts.push(part),
        ) is None,
        parts_count(Seq::empty()) == Some(0nat),
{
    assert(parts.push(part).drop_last() =~= parts);
}

/// Law: a text is parted at every mark, and what comes behind the last mark is the last part.
pub proof fn law_parts_at_every_mark(s: Seq<char>, mark: char, part: Seq<char>)
    requires
        !part.contains(mark),
    ensures
        split_by(s.push(mark) + part, mark) == split_by(s, mark).push(part),
        split_by(part, mark) == seq![part],
    decreases part.len(),
{
    let whole = s.push(mark) + part;
    if part.len() == 0 {
        assert(whole =~= s.push(mark));
        assert(s.push(mark).drop_last() =~= s);
        assert(part =~= Seq::<char>::empty());
    } else {
        let front = part.drop_last();
        assert forall|k: int| 0 <= k < front.len() implies front[k] != mark by {
            assert(part.contains(part[k]));
        }
        assert(part.contains(part[part.len() - 1]));
        law_parts_at_every_mark(s, mark, front);
        assert(whole.drop_last() =~= s.push(mark) + front);
        assert(front.push(part.last()) =~= part);
        let before = split_by(s, mark).push(front);
        assert(before.update(before.len() - 1, before.last().push(part.last())) =~= split_by(
            s,
            mark,
        ).push(part));
        assert(seq![front].update(0, front.push(part.last())) =~= seq![part]);
    }
}

/// Law: a setting of a source is handed over as an option with its value; one that is only on or
/// off, as the option alone, where it is on.
pub proof fn law_settings_become_options(name: Seq<char>, value: Yaml)
    ensures
        value matches Yaml::Text(t) ==> param_args(name, value) == Some(seq![flag_of(name), t@]),
        value matches Yaml::Number(t) ==> param_args(name, value) == Some(seq![flag_of(name), t@]),
        value == Yaml::Bool(true) ==> param_args(name, value) == Some(seq![flag_of(name)]),
        value == Yaml::Bool(false) || value is Null ==> param_args(name, value) == Some(
            Seq::<Seq<char>>::empty(),
        ),
        flag_of(name).len() == name.len() + 2,
        forall|i: int|
            0 <= i < name.len() && name[i] != '_' ==> #[trigger] flag_of(name)[i + 2] == name[i],
        forall|i: int|
            0 <= i < name.len() && name[i] == '_' ==> #[trigger] flag_of(name)[i + 2] == '-',
{
    reveal_strlit("--");
}

/// Law: settings are handed over in their order, each with what belongs to it.
pub proof fn law_settings_are_handed_over_in_order(
    params: Seq<(String, Yaml)>,
    p: (String, Yaml),
)
    ensures
        param_args(p.0@, p.1) matches Some(args) ==> all_param_args(params.push(p))
            == all_param_args(params) + args,
        all_param_args(Seq::empty()) == Seq::<Seq<char>>::empty(),
{
    assert(params.push(p).drop_last() =~= params);
}

/// Law: an agent is called with its configuration, and where to log; it is told where to say that
/// it is ready, and which dispatcher to start, just where there is something to tell.
pub proof fn law_agents_are_called_with_their_places(
    yaml: Seq<char>,
    log_dir: Seq<char>,
    ready: Option<Seq<char>>,
    dispatcher: Option<Seq<char>>,
)
    ensures
        ({
            let c = agent_call(yaml, log_dir, ready, dispatcher);
            &&& c[0] == yaml
            &&& c[1] == "--log-dir"@ && c[2] == log_dir
            &&& ready matches Some(f) ==> c[3] == "--ready-file"@ && c[4] == f
            &&& dispatcher matches Some(d) ==> c[c.len() - 2] == "--dispatcher-bin"@ && c.last()
                == d
            &&& c.len() == 3 + (if ready is Some {
                2int
            } else {
                0
            }) + (if dispatcher is Some {
                2int
            } else {
                0
            })
        }),
{
}

} // verus!

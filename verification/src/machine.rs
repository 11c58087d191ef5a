//! What is read about the machine and the build.

use vstd::prelude::*;
use crate::numtext::{owned_views, parse_number, parsed};
use crate::text::{
    chars_of, has_prefix, same, split, split_by, string_of, strip_prefix, trim, trimmed,
};

verus! {

/// The first mark is at `i`.
pub open spec fn is_first_mark(s: Seq<char>, mark: char, i: int) -> bool {
    &&& 0 <= i < s.len()
    &&& s[i] == mark
    &&& forall|k: int| 0 <= k < i ==> (#[trigger] s[k]) != mark
}

/// The text before the first mark and the text behind it.
pub open spec fn split_at_first(s: Seq<char>, mark: char) -> Option<(Seq<char>, Seq<char>)> {
    if exists|i: int| is_first_mark(s, mark, i) {
        let i = choose|i: int| is_first_mark(s, mark, i);
        Some((s.take(i), s.skip(i + 1)))
    } else {
        None
    }
}

/// Splits a text at the first mark.
pub fn split_once(s: &str, mark: char) -> (r: Option<(String, String)>)
    ensures
        match r {
            None => split_at_first(s@, mark) is None,
            Some(p) => split_at_first(s@, mark) == Some((p.0@, p.1@)),
        },
{
    let chars = chars_of(s);
    let n: usize = chars.len();
    let mut i: usize = 0;
    while i < n
        invariant
            i <= n == s@.len(),
            chars@ == s@,
            forall|k: int| 0 <= k < i ==> (#[trigger] s@[k]) != mark,
        decreases n - i,
    {
        if chars[i] == mark {
            proof {
                assert(is_first_mark(s@, mark, i as int));
                let c = choose|c: int| is_first_mark(s@, mark, c);
                assert(is_first_mark(s@, mark, c));
                assert(c == i);
                assert(s@.subrange(0, i as int) =~= s@.take(i as int));
                assert(s@.subrange(i + 1, n as int) =~= s@.skip(i + 1));
            }
            return Some((string_of(&chars, 0, i), string_of(&chars, i + 1, n)));
        }
        i = i + 1;
    }
    None
}

/// How many processors one part of a list stands for: a number for one, a range
/// for all in it.
pub open spec fn part_count(part: Seq<char>) -> Option<nat> {
    match split_at_first(part, '-') {
        Some((a, b)) => match (
            parsed(trimmed(a), u64::MAX as nat),
            parsed(trimmed(b), u64::MAX as nat),
        ) {
            (Some(start), Some(end)) => if end < start {
                None
            } else {
                Some((end - start + 1) as nat)
            },
            _ => None,
        },
        None => match parsed(part, u64::MAX as nat) {
            Some(_) => Some(1),
            None => None,
        },
    }
}

/// How many processors the parts stand for together; empty parts are passed
/// over.
pub open spec fn parts_count(parts: Seq<Seq<char>>) -> Option<nat>
    decreases parts.len(),
{
    if parts.len() == 0 {
        Some(0)
    } else {
        let part = trimmed(parts.last());
        match parts_count(parts.drop_last()) {
            None => None,
            Some(n) => if part.len() == 0 {
                Some(n)
            } else {
                match part_count(part) {
                    None => None,
                    Some(k) => Some(n + k),
                }
            },
        }
    }
}

/// How many processors a list names, as far as the number fits; none where it
/// names none or cannot be read.
pub open spec fn cpu_count(list: Seq<char>) -> Option<nat> {
    match parts_count(split_by(list, ',')) {
        Some(n) if n > 0 => Some(
            if n < usize::MAX as nat {
                n
            } else {
                usize::MAX as nat
            },
        ),
        _ => None,
    }
}

fn count_part(part: &str) -> (r: Option<u128>)
    ensures
        match r {
            None => part_count(part@) is None,
            Some(n) => part_count(part@) == Some(n as nat) && n <= 0x1_0000_0000_0000_0000,
        },
{
    match split_once(part, '-') {
        Some((a, b)) => {
            let start = parse_number(trim(a.as_str()).as_str(), u64::MAX);
            let end = parse_number(trim(b.as_str()).as_str(), u64::MAX);
            match (start, end) {
                (Some(s), Some(e)) => if e < s {
                    None
                } else {
                    Some(e as u128 - s as u128 + 1)
                },
                _ => None,
            }
        },
        None => match parse_number(part, u64::MAX) {
            Some(_) => Some(1),
            None => None,
        },
    }
}

proof fn lemma_no_count(parts: Seq<Seq<char>>, i: int)
    requires
        0 <= i <= parts.len(),
        parts_count(parts.take(i)) is None,
    ensures
        parts_count(parts) is None,
    decreases parts.len() - i,
{
    if i < parts.len() {
        assert(parts.take(i + 1).drop_last() =~= parts.take(i));
        lemma_no_count(parts, i + 1);
    } else {
        assert(parts.take(i) =~= parts);
    }
}

/// How many processors a list such as `0-3,8` names.
pub fn parse_linux_cpu_list_count(list: &str) -> (r: Option<usize>)
    ensures
        match r {
            None => cpu_count(list@) is None,
            Some(n) => cpu_count(list@) == Some(n as nat),
        },
{
    let parts = split(list, ',');
    let ghost all = split_by(list@, ',');
    assert(owned_views(parts@) =~= all);
    let n: usize = parts.len();
    let mut total: u128 = 0;
    let mut i: usize = 0;
    assert(all.take(0) =~= Seq::<Seq<char>>::empty());
    while i < n
        invariant
            i <= n == parts@.len(),
            n <= 0xffff_ffff_ffff_ffff,
            all == split_by(list@, ','),
            all == owned_views(parts@),
            parts_count(all.take(i as int)) == Some(total as nat),
            total <= i * 0x1_0000_0000_0000_0000,
        decreases n - i,
    {
        assert(all.take(i + 1).drop_last() =~= all.take(i as int));
        assert(all[i as int] == parts@[i as int]@);
        let part = trim(parts[i].as_str());
        if chars_of(part.as_str()).len() > 0 {
            match count_part(part.as_str()) {
                None => {
                    proof {
                        lemma_no_count(all, i + 1);
                    }
                    return None;
                },
                Some(k) => {
                    total = total + k;
                },
            }
        }
        i = i + 1;
    }
    assert(all.take(i as int) =~= all);
    if total == 0 {
        None
    } else if total < usize::MAX as u128 {
        Some(total as usize)
    } else {
        Some(usize::MAX)
    }
}

/// The line that names the processors a process may run on is at `i`.
pub open spec fn is_cpu_line(lines: Seq<Seq<char>>, i: int) -> bool {
    &&& 0 <= i < lines.len()
    &&& has_prefix(lines[i], "Cpus_allowed_list:\t"@)
    &&& forall|k: int| 0 <= k < i ==> !has_prefix(#[trigger] lines[k], "Cpus_allowed_list:\t"@)
}

/// How many processors a process may run on, by its status file.
pub open spec fn allowed_cpus(status: Seq<char>) -> Option<nat> {
    let lines = split_by(status, '\n');
    if exists|i: int| is_cpu_line(lines, i) {
        cpu_count(lines[choose|i: int| is_cpu_line(lines, i)].skip("Cpus_allowed_list:\t"@.len() as int))
    } else {
        None
    }
}

/// How many processors a process may run on, by its status file.
pub fn linux_affinity_cpu_count(status: &str) -> (r: Option<usize>)
    ensures
        match r {
            None => allowed_cpus(status@) is None,
            Some(n) => allowed_cpus(status@) == Some(n as nat),
        },
{
    let lines = split(status, '\n');
    let ghost all = split_by(status@, '\n');
    assert(owned_views(lines@) =~= all);
    let mut i: usize = 0;
    while i < lines.len()
        invariant
            i <= lines@.len(),
            all == split_by(status@, '\n'),
            all == owned_views(lines@),
            forall|k: int| 0 <= k < i ==> !has_prefix(#[trigger] all[k], "Cpus_allowed_list:\t"@),
        decreases lines@.len() - i,
    {
        assert(all[i as int] == lines@[i as int]@);
        match strip_prefix(lines[i].as_str(), "Cpus_allowed_list:\t") {
            Some(list) => {
                proof {
                    assert(is_cpu_line(all, i as int));
                    let c = choose|c: int| is_cpu_line(all, c);
                    assert(is_cpu_line(all, c));
                    assert(c == i);
                }
                return parse_linux_cpu_list_count(list.as_str());
            },
            None => {},
        }
        i = i + 1;
    }
    None
}

/// By how many processors the load of a process is divided: those it may run on,
/// or else those there are, and one at least.
pub fn counted_cpus(allowed: Option<usize>, there_are: Option<usize>) -> (n: usize)
    ensures
        n == (match allowed {
            Some(a) => if a < 1 {
                1
            } else {
                a
            },
            None => match there_are {
                Some(t) => t,
                None => 1,
            },
        }),
{
    match allowed {
        Some(a) => if a < 1 {
            1
        } else {
            a
        },
        None => match there_are {
            Some(t) => t,
            None => 1,
        },
    }
}

/// The text without the quotes at its end.
pub open spec fn unquoted(s: Seq<char>) -> Seq<char>
    decreases s.len(),
{
    if s.len() > 0 && s.last() == '"' {
        unquoted(s.drop_last())
    } else {
        s
    }
}

/// The line that names the package is at `i`.
pub open spec fn is_package_line(lines: Seq<Seq<char>>, i: int) -> bool {
    &&& 0 <= i < lines.len()
    &&& trimmed(lines[i]) == "name = \"wasmtime\""@
    &&& forall|k: int| 0 <= k < i ==> trimmed(#[trigger] lines[k]) != "name = \"wasmtime\""@
}

/// The version in the first of some lines that has one.
pub open spec fn version_in(lines: Seq<Seq<char>>) -> Option<Seq<char>>
    decreases lines.len(),
{
    if lines.len() == 0 {
        None
    } else if has_prefix(trimmed(lines[0]), "version = \""@) {
        Some(unquoted(trimmed(lines[0]).skip("version = \""@.len() as int)))
    } else {
        version_in(lines.skip(1))
    }
}

/// The version of the engine in a lock file: in one of the three lines behind the
/// one that names it.
pub open spec fn locked_version(text: Seq<char>) -> Option<Seq<char>> {
    let lines = split_by(text, '\n');
    if exists|i: int| is_package_line(lines, i) {
        let i = choose|i: int| is_package_line(lines, i);
        let end = if i + 4 < lines.len() {
            i + 4
        } else {
            lines.len() as int
        };
        version_in(lines.subrange(i + 1, end))
    } else {
        None
    }
}

fn without_quotes(s: &str) -> (out: String)
    ensures
        out@ == unquoted(s@),
{
    let chars = chars_of(s);
    let mut n: usize = chars.len();
    assert(s@.take(n as int) =~= s@);
    while n > 0 && chars[n - 1] == '"'
        invariant
            n <= chars@.len(),
            chars@ == s@,
            unquoted(s@.take(n as int)) == unquoted(s@),
        decreases n,
    {
        assert(s@.take(n as int).drop_last() =~= s@.take(n - 1));
        n = n - 1;
    }
    assert(s@.subrange(0, n as int) =~= s@.take(n as int));
    string_of(&chars, 0, n)
}

/// The version of the engine in a lock file.
pub fn wasmtime_version(lock: &str) -> (r: Option<String>)
    ensures
        match r {
            None => locked_version(lock@) is None,
            Some(v) => locked_version(lock@) == Some(v@),
        },
{
    let lines = split(lock, '\n');
    let ghost all = split_by(lock@, '\n');
    assert(owned_views(lines@) =~= all);
    let n: usize = lines.len();
    let mut i: usize = 0;
    while i < n
        invariant
            i <= n == lines@.len(),
            all == split_by(lock@, '\n'),
            all == owned_views(lines@),
            forall|k: int| 0 <= k < i ==> trimmed(#[trigger] all[k]) != "name = \"wasmtime\""@,
        decreases n - i,
    {
        assert(all[i as int] == lines@[i as int]@);
        if same(trim(lines[i].as_str()).as_str(), "name = \"wasmtime\"") {
            proof {
                assert(is_package_line(all, i as int));
                let c = choose|c: int| is_package_line(all, c);
                assert(is_package_line(all, c));
                assert(c == i);
            }
            let end: usize = if n - i > 4 {
                i + 4
            } else {
                n
            };
            let ghost few = all.subrange(i + 1, end as int);
            let mut k: usize = i + 1;
            assert(all.subrange(k as int, end as int) =~= few);
            while k < end
                invariant
                    i + 1 <= k <= end <= n == lines@.len(),
                    all == owned_views(lines@),
                    few == all.subrange(i + 1, end as int),
                    version_in(all.subrange(k as int, end as int)) == version_in(few),
                    locked_version(lock@) == version_in(few),
                decreases end - k,
            {
                let ghost rest = all.subrange(k as int, end as int);
                assert(rest[0] == lines@[k as int]@);
                assert(rest.skip(1) =~= all.subrange(k + 1, end as int));
                let line = trim(lines[k].as_str());
                match strip_prefix(line.as_str(), "version = \"") {
                    Some(v) => {
                        return Some(without_quotes(v.as_str()));
                    },
                    None => {},
                }
                k = k + 1;
            }
            return None;
        }
        i = i + 1;
    }
    None
}

/// How many components the engine keeps room for: a fifth more than there can be
/// replicas, and a hundred at least.
pub open spec fn component_slots(replicas: nat) -> nat {
    let n = (6 * replicas + 4) / 5;
    if n < 100 {
        100
    } else {
        n
    }
}

/// The room that the engine keeps: for components, and for the modules inside
/// them, of which there are up to four. None where there are more than it can
/// count.
pub fn pool_slots(total_max_replicas: usize) -> (r: Option<(u32, u32)>)
    ensures
        match r {
            None => 4 * component_slots(total_max_replicas as nat) > u32::MAX,
            Some((slots, core)) => {
                &&& slots == component_slots(total_max_replicas as nat)
                &&& core == 4 * slots
            },
        },
{
    let n: u128 = (6 * total_max_replicas as u128 + 4) / 5;
    let slots: u128 = if n < 100 {
        100
    } else {
        n
    };
    if 4 * slots > u32::MAX as u128 {
        None
    } else {
        Some((slots as u32, 4 * slots as u32))
    }
}

} // verus!

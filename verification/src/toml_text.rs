//! Dependencies of a stage, from the pipeline file to a package manifest.

use vstd::prelude::*;
use crate::numtext::{joined, join, owned_views};
use crate::pipeline_spec::Yaml;
use crate::text::chars_of;

verus! {

/// A digit of a number in base sixteen.
pub open spec fn hex_digit(d: int) -> char {
    if d < 10 {
        (('0' as int) + d) as char
    } else {
        (('A' as int) + (d - 10)) as char
    }
}

/// A character that no printed text has.
pub open spec fn is_control(c: char) -> bool {
    '\0' <= c && ' ' > c
}

/// A character as it stands within quotes.
pub open spec fn escaped_char(c: char) -> Seq<char> {
    if c == '\\' {
        seq!['\\', '\\']
    } else if c == '"' {
        seq!['\\', '"']
    } else if c == '\n' {
        seq!['\\', 'n']
    } else if c == '\r' {
        seq!['\\', 'r']
    } else if c == '\t' {
        seq!['\\', 't']
    } else if is_control(c) {
        seq!['\\', 'u', '0', '0', hex_digit(c as int / 16), hex_digit(c as int % 16)]
    } else {
        seq![c]
    }
}

/// A text as it stands within quotes.
pub open spec fn escaped(s: Seq<char>) -> Seq<char>
    decreases s.len(),
{
    if s.len() == 0 {
        Seq::empty()
    } else {
        escaped(s.drop_last()) + escaped_char(s.last())
    }
}

fn hex_char(d: u8) -> (c: char)
    requires
        d < 16,
    ensures
        c == hex_digit(d as int),
{
    if d < 10 {
        (48 + d) as char
    } else {
        (65 + (d - 10)) as char
    }
}

/// Makes a text fit to stand within quotes: backslashes, quotes and control
/// characters are escaped.
pub fn escape_toml_string(s: &str) -> (out: String)
    ensures
        out@ == escaped(s@),
{
    let chars = chars_of(s);
    let mut out = String::new();
    let mut i: usize = 0;
    assert(s@.take(0) =~= Seq::<char>::empty());
    while i < chars.len()
        invariant
            i <= chars@.len(),
            chars@ == s@,
            out@ == escaped(s@.take(i as int)),
        decreases chars@.len() - i,
    {
        assert(s@.take(i + 1).drop_last() =~= s@.take(i as int));
        let c = chars[i];
        let ghost was = out@;
        if c == '\\' {
            out.push('\\');
            out.push('\\');
        } else if c == '"' {
            out.push('\\');
            out.push('"');
        } else if c == '\n' {
            out.push('\\');
            out.push('n');
        } else if c == '\r' {
            out.push('\\');
            out.push('r');
        } else if c == '\t' {
            out.push('\\');
            out.push('t');
        } else if '\0' <= c && ' ' > c {
            let n: u8 = c as u8;
            out.push('\\');
            out.push('u');
            out.push('0');
            out.push('0');
            out.push(hex_char(n / 16));
            out.push(hex_char(n % 16));
        } else {
            out.push(c);
        }
        assert(out@ =~= was + escaped_char(c));
        i = i + 1;
    }
    assert(s@.take(i as int) =~= s@);
    out
}

/// Law: whatever a text holds, nothing of it can end the quotes around it: an
/// escaped text has a quote only behind a backslash, and no control character.
pub proof fn law_escaped_text_stays_quoted(s: Seq<char>)
    ensures
        forall|i: int|
            0 <= i < escaped(s).len() && #[trigger] escaped(s)[i] == '"' ==> i > 0 && escaped(
                s,
            )[i - 1] == '\\',
        forall|i: int|
            0 <= i < escaped(s).len() ==> !is_control(#[trigger] escaped(s)[i]),
    decreases s.len(),
{
    if s.len() > 0 {
        law_escaped_text_stays_quoted(s.drop_last());
        let front = escaped(s.drop_last());
        let c = s.last();
        let tail = escaped_char(c);
        assert(is_control(c) ==> 0 <= (c as int) / 16 < 2 && 0 <= (c as int) % 16 < 16);
        assert forall|i: int| 0 <= i < escaped(s).len() && #[trigger] escaped(s)[i] == '"'
            implies i > 0 && escaped(s)[i - 1] == '\\' by {
            if i < front.len() {
                assert(escaped(s)[i] == front[i]);
                if i > 0 {
                    assert(escaped(s)[i - 1] == front[i - 1]);
                }
            } else {
                assert(escaped(s)[i] == tail[i - front.len()]);
                if i > front.len() {
                    assert(escaped(s)[i - 1] == tail[i - 1 - front.len()]);
                }
            }
        }
        assert forall|i: int| 0 <= i < escaped(s).len() implies !is_control(
            #[trigger] escaped(s)[i],
        ) by {
            if i < front.len() {
                assert(escaped(s)[i] == front[i]);
            } else {
                assert(escaped(s)[i] == tail[i - front.len()]);
            }
        }
    }
}

/// What a dependency cannot be.
#[derive(Clone, Copy, Debug, PartialEq, Eq, Structural)]
pub enum DepFault {
    /// Nothing at all.
    Null,
    /// A list, where a version or a table is meant.
    List,
    /// A table with a key that is no text.
    KeyNotText,
}

impl DepFault {
    /// The words in which a dependency is refused.
    pub open spec fn text(&self) -> Seq<char> {
        match *self {
            DepFault::Null => NULL_DEP@,
            DepFault::List => LIST_DEP@,
            DepFault::KeyNotText => KEY_DEP@,
        }
    }

    /// The words in which a dependency is refused.
    pub fn message(&self) -> (out: &'static str)
        ensures
            out@ == self.text(),
    {
        match self {
            DepFault::Null => NULL_DEP,
            DepFault::List => LIST_DEP,
            DepFault::KeyNotText => KEY_DEP,
        }
    }
}

pub const NULL_DEP: &'static str = "null is not a valid dependency spec; use a version string like \"1.0\" or an inline table like { version = \"1.0\" }";

pub const LIST_DEP: &'static str = "a top-level sequence is not a valid dependency spec; use an inline table { version = \"...\", features = [...] }";

pub const KEY_DEP: &'static str = "dep table key must be a string";

/// Why a value is refused, and under which keys it stands.
#[derive(Debug)]
pub struct DepError {
    pub keys: Vec<String>,
    pub fault: DepFault,
}

/// Why a value is refused, as a value.
pub type DepModel = (Seq<Seq<char>>, DepFault);

impl View for DepError {
    type V = DepModel;

    open spec fn view(&self) -> DepModel {
        (owned_views(self.keys@), self.fault)
    }
}

/// What a value is in a manifest, within a table: as by itself, and lists too.
pub open spec fn inline_toml(v: Yaml) -> Result<Seq<char>, DepModel>
    decreases v, 1int,
{
    match v {
        Yaml::List(items) => match list_toml(items@) {
            Err(e) => Err(e),
            Ok(parts) => Ok(seq!['['] + joined(parts, ", "@) + seq![']']),
        },
        _ => toml_value(v),
    }
}

/// What the values of a list are in a manifest.
pub open spec fn list_toml(items: Seq<Yaml>) -> Result<Seq<Seq<char>>, DepModel>
    decreases items, 0int,
{
    if items.len() == 0 {
        Ok(Seq::empty())
    } else {
        match list_toml(items.drop_last()) {
            Err(e) => Err(e),
            Ok(parts) => match inline_toml(items.last()) {
                Err(e) => Err(e),
                Ok(p) => Ok(parts.push(p)),
            },
        }
    }
}

/// What the entries of a table are in a manifest.
pub open spec fn table_toml(entries: Seq<(Yaml, Yaml)>) -> Result<Seq<Seq<char>>, DepModel>
    decreases entries, 0int,
{
    if entries.len() == 0 {
        Ok(Seq::empty())
    } else {
        match table_toml(entries.drop_last()) {
            Err(e) => Err(e),
            Ok(parts) => match entries.last().0 {
                Yaml::Text(k) => match inline_toml(entries.last().1) {
                    Err(e) => Err((seq![k@] + e.0, e.1)),
                    Ok(p) => Ok(parts.push(k@ + " = "@ + p)),
                },
                _ => Err((Seq::empty(), DepFault::KeyNotText)),
            },
        }
    }
}

/// What a value is in a manifest: a version, a flag, a number, or a table.
pub open spec fn toml_value(v: Yaml) -> Result<Seq<char>, DepModel>
    decreases v, 0int,
{
    match v {
        Yaml::Text(s) => Ok(seq!['"'] + escaped(s@) + seq!['"']),
        Yaml::Bool(b) => Ok(
            if b {
                "true"@
            } else {
                "false"@
            },
        ),
        Yaml::Number(n) => Ok(n@),
        Yaml::Table(m) => match table_toml(m@) {
            Err(e) => Err(e),
            Ok(parts) => Ok("{ "@ + joined(parts, ", "@) + " }"@),
        },
        Yaml::Null => Err((Seq::empty(), DepFault::Null)),
        Yaml::List(_) => Err((Seq::empty(), DepFault::List)),
        Yaml::Tagged(inner) => toml_value(*inner),
    }
}

/// What came of rendering a value, as a value.
pub open spec fn rendered(r: Result<String, DepError>) -> Result<Seq<char>, DepModel> {
    match r {
        Ok(s) => Ok(s@),
        Err(e) => Err(e@),
    }
}

proof fn lemma_list_stops(items: Seq<Yaml>, k: int)
    requires
        0 <= k <= items.len(),
        list_toml(items.take(k)) is Err,
    ensures
        list_toml(items) == list_toml(items.take(k)),
    decreases items.len() - k,
{
    if k < items.len() {
        assert(items.take(k + 1).drop_last() =~= items.take(k));
        lemma_list_stops(items, k + 1);
    } else {
        assert(items.take(k) =~= items);
    }
}

proof fn lemma_table_stops(entries: Seq<(Yaml, Yaml)>, k: int)
    requires
        0 <= k <= entries.len(),
        table_toml(entries.take(k)) is Err,
    ensures
        table_toml(entries) == table_toml(entries.take(k)),
    decreases entries.len() - k,
{
    if k < entries.len() {
        assert(entries.take(k + 1).drop_last() =~= entries.take(k));
        lemma_table_stops(entries, k + 1);
    } else {
        assert(entries.take(k) =~= entries);
    }
}

fn no_keys(fault: DepFault) -> (e: DepError)
    ensures
        e@ == (Seq::<Seq<char>>::empty(), fault),
{
    let e = DepError { keys: Vec::new(), fault };
    assert(owned_views(e.keys@) =~= Seq::<Seq<char>>::empty());
    e
}

/// Writes a value as it stands within a table.
pub fn yaml_to_inline_toml(v: &Yaml) -> (r: Result<String, DepError>)
    ensures
        rendered(r) == inline_toml(*v),
    decreases *v, 1int,
{
    match v {
        Yaml::List(items) => {
            let ghost all = items@;
            let mut parts: Vec<String> = Vec::new();
            let mut i: usize = 0;
            assert(owned_views(parts@) =~= Seq::<Seq<char>>::empty());
            assert(all.take(0) =~= Seq::<Yaml>::empty());
            while i < items.len()
                invariant
                    i <= items@.len(),
                    *v == Yaml::List(*items),
                    all == items@,
                    list_toml(all.take(i as int)) == Ok::<Seq<Seq<char>>, DepModel>(
                        owned_views(parts@),
                    ),
                decreases items@.len() - i,
            {
                assert(all.take(i + 1).drop_last() =~= all.take(i as int));
                assert(decreases_to!(*v => items@[i as int]));
                match yaml_to_inline_toml(&items[i]) {
                    Err(e) => {
                        proof {
                            lemma_list_stops(all, i + 1);
                        }
                        return Err(e);
                    },
                    Ok(p) => {
                        let ghost was = parts@;
                        parts.push(p);
                        assert(owned_views(parts@) =~= owned_views(was).push(p@));
                    },
                }
                i = i + 1;
            }
            assert(all.take(i as int) =~= all);
            let inner = join(&parts, ", ");
            let mut out = String::new();
            out.push('[');
            out.append(inner.as_str());
            out.push(']');
            assert(out@ =~= seq!['['] + inner@ + seq![']']);
            Ok(out)
        },
        _ => yaml_to_toml_value(v),
    }
}

/// Writes a value as it stands for a dependency.
pub fn yaml_to_toml_value(v: &Yaml) -> (r: Result<String, DepError>)
    ensures
        rendered(r) == toml_value(*v),
    decreases *v, 0int,
{
    match v {
        Yaml::Text(s) => {
            let inner = escape_toml_string(s.as_str());
            let mut out = String::new();
            out.push('"');
            out.append(inner.as_str());
            out.push('"');
            assert(out@ =~= seq!['"'] + inner@ + seq!['"']);
            Ok(out)
        },
        Yaml::Bool(b) => Ok(
            if *b {
                "true".to_owned()
            } else {
                "false".to_owned()
            },
        ),
        Yaml::Number(n) => Ok(n.clone()),
        Yaml::Table(m) => {
            let ghost all = m@;
            let mut parts: Vec<String> = Vec::new();
            let mut i: usize = 0;
            assert(owned_views(parts@) =~= Seq::<Seq<char>>::empty());
            assert(all.take(0) =~= Seq::<(Yaml, Yaml)>::empty());
            while i < m.len()
                invariant
                    i <= m@.len(),
                    *v == Yaml::Table(*m),
                    all == m@,
                    table_toml(all.take(i as int)) == Ok::<Seq<Seq<char>>, DepModel>(
                        owned_views(parts@),
                    ),
                decreases m@.len() - i,
            {
                assert(all.take(i + 1).drop_last() =~= all.take(i as int));
                assert(decreases_to!(*v => m@[i as int]));
                assert(decreases_to!(m@[i as int] => m@[i as int].1));
                let entry = &m[i];
                match &entry.0 {
                    Yaml::Text(k) => match yaml_to_inline_toml(&entry.1) {
                        Err(e) => {
                            proof {
                                lemma_table_stops(all, i + 1);
                            }
                            let mut keys = e.keys;
                            let ghost was = keys@;
                            keys.insert(0, k.clone());
                            assert(owned_views(keys@) =~= seq![k@] + owned_views(was));
                            return Err(DepError { keys, fault: e.fault });
                        },
                        Ok(p) => {
                            let mut part = k.clone();
                            part.append(" = ");
                            part.append(p.as_str());
                            let ghost was = parts@;
                            let ghost text = part@;
                            parts.push(part);
                            assert(owned_views(parts@) =~= owned_views(was).push(text));
                        },
                    },
                    _ => {
                        proof {
                            lemma_table_stops(all, i + 1);
                        }
                        return Err(no_keys(DepFault::KeyNotText));
                    },
                }
                i = i + 1;
            }
            assert(all.take(i as int) =~= all);
            let inner = join(&parts, ", ");
            let mut out = "{ ".to_owned();
            out.append(inner.as_str());
            out.append(" }");
            Ok(out)
        },
        Yaml::Null => Err(no_keys(DepFault::Null)),
        Yaml::List(_) => Err(no_keys(DepFault::List)),
        Yaml::Tagged(inner) => yaml_to_toml_value(inner),
    }
}

/// The lines of a manifest for some dependencies, or the first of them that is
/// refused, and why.
pub open spec fn deps_text(deps: Seq<(String, Yaml)>) -> Result<Seq<char>, (Seq<char>, DepModel)>
    decreases deps.len(),
{
    if deps.len() == 0 {
        Ok(Seq::empty())
    } else {
        match deps_text(deps.drop_last()) {
            Err(e) => Err(e),
            Ok(lines) => match toml_value(deps.last().1) {
                Err(e) => Err((deps.last().0@, e)),
                Ok(t) => Ok(lines + (deps.last().0@ + " = "@ + t + "\n"@)),
            },
        }
    }
}

proof fn lemma_deps_stop(deps: Seq<(String, Yaml)>, k: int)
    requires
        0 <= k <= deps.len(),
        deps_text(deps.take(k)) is Err,
    ensures
        deps_text(deps) == deps_text(deps.take(k)),
    decreases deps.len() - k,
{
    if k < deps.len() {
        assert(deps.take(k + 1).drop_last() =~= deps.take(k));
        lemma_deps_stop(deps, k + 1);
    } else {
        assert(deps.take(k) =~= deps);
    }
}

/// Writes the dependencies of a stage, one line each.
pub fn render_extra_deps(deps: &Vec<(String, Yaml)>) -> (r: Result<String, (String, DepError)>)
    ensures
        match r {
            Ok(s) => deps_text(deps@) == Ok::<Seq<char>, (Seq<char>, DepModel)>(s@),
            Err(e) => deps_text(deps@) == Err::<Seq<char>, (Seq<char>, DepModel)>((e.0@, e.1@)),
        },
{
    let mut out = String::new();
    let mut i: usize = 0;
    assert(deps@.take(0) =~= Seq::<(String, Yaml)>::empty());
    assert(out@ =~= Seq::<char>::empty());
    while i < deps.len()
        invariant
            i <= deps@.len(),
            deps_text(deps@.take(i as int)) == Ok::<Seq<char>, (Seq<char>, DepModel)>(out@),
        decreases deps@.len() - i,
    {
        assert(deps@.take(i + 1).drop_last() =~= deps@.take(i as int));
        match yaml_to_toml_value(&deps[i].1) {
            Err(e) => {
                proof {
                    lemma_deps_stop(deps@, i + 1);
                }
                return Err((deps[i].0.clone(), e));
            },
            Ok(t) => {
                let mut line = deps[i].0.clone();
                line.append(" = ");
                line.append(t.as_str());
                line.append("\n");
                out.append(line.as_str());
            },
        }
        i = i + 1;
    }
    assert(deps@.take(i as int) =~= deps@);
    Ok(out)
}

} // verus!

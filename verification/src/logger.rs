//! The log of a run: where it is kept, and what is written of a message, for the
//! terminal and for the file.

use vstd::prelude::*;
use vstd::utf8::encode_utf8;
use crate::calendar::{format_ts_slug, format_wall_time, time_slug, wall_time};
use crate::json::{
    law_values_have_a_meaning, meaning, shows, with_entry, JsonModel, JsonOut, ObjectOut,
};
use crate::numtext::{decimal, decimal_text, law_decimal_reads_back, owned_views};
use crate::pipeline_spec::{join_path, path_from};
use crate::stats::{nearest, round_half_up};
use crate::text::{lowered, replace_char, replaced, same, to_lower};

verus! {

/// How much a message matters.
#[derive(Debug, Clone, Copy, PartialEq, Eq, Structural)]
pub enum Level {
    Debug,
    Info,
    Warn,
    Error,
}

pub const RESET: &'static str = "\x1b[0m";

pub const DIM: &'static str = "\x1b[38;5;244m";

pub const MUTE: &'static str = "\x1b[38;5;240m";

pub const YEL: &'static str = "\x1b[33m";

pub const RED: &'static str = "\x1b[31m";

pub const VAL: &'static str = "\x1b[38;5;250m";

/// The levels in order.
pub open spec fn rank_of(l: Level) -> nat {
    match l {
        Level::Debug => 0,
        Level::Info => 1,
        Level::Warn => 2,
        Level::Error => 3,
    }
}

pub open spec fn tag_of(l: Level) -> Seq<char> {
    match l {
        Level::Debug => "debug"@,
        Level::Info => "info "@,
        Level::Warn => "warn "@,
        Level::Error => "error"@,
    }
}

pub open spec fn level_name(l: Level) -> Seq<char> {
    match l {
        Level::Debug => "DEBUG"@,
        Level::Info => "INFO"@,
        Level::Warn => "WARN"@,
        Level::Error => "ERROR"@,
    }
}

/// The colour of the tag; none for the level that most messages have.
pub open spec fn tag_colour_of(l: Level) -> Option<Seq<char>> {
    match l {
        Level::Debug => Some(MUTE@),
        Level::Info => None,
        Level::Warn => Some(YEL@),
        Level::Error => Some(RED@),
    }
}

/// The colour of the message; only what needs attention has one.
pub open spec fn msg_colour_of(l: Level) -> Option<Seq<char>> {
    match l {
        Level::Warn => Some(YEL@),
        Level::Error => Some(RED@),
        _ => None,
    }
}

pub open spec fn opt_view(s: Option<&'static str>) -> Option<Seq<char>> {
    match s {
        None => None,
        Some(t) => Some(t@),
    }
}

impl Level {
    /// The place of the level in the order of all.
    pub fn rank(self) -> (n: u8)
        ensures
            n == rank_of(self),
    {
        match self {
            Level::Debug => 0,
            Level::Info => 1,
            Level::Warn => 2,
            Level::Error => 3,
        }
    }

    /// The name of the level in a line, five characters wide.
    pub fn tag(self) -> (s: &'static str)
        ensures
            s@ == tag_of(self),
    {
        match self {
            Level::Debug => "debug",
            Level::Info => "info ",
            Level::Warn => "warn ",
            Level::Error => "error",
        }
    }

    /// The name of the level in the file.
    pub fn name(self) -> (s: &'static str)
        ensures
            s@ == level_name(self),
    {
        match self {
            Level::Debug => "DEBUG",
            Level::Info => "INFO",
            Level::Warn => "WARN",
            Level::Error => "ERROR",
        }
    }

    pub fn tag_colour(self) -> (s: Option<&'static str>)
        ensures
            opt_view(s) == tag_colour_of(self),
    {
        match self {
            Level::Debug => Some(MUTE),
            Level::Info => None,
            Level::Warn => Some(YEL),
            Level::Error => Some(RED),
        }
    }

    pub fn msg_colour(self) -> (s: Option<&'static str>)
        ensures
            opt_view(s) == msg_colour_of(self),
    {
        match self {
            Level::Warn => Some(YEL),
            Level::Error => Some(RED),
            _ => None,
        }
    }
}

/// The level that a setting asks for; the usual one where it names none.
pub open spec fn level_set(setting: Option<Seq<char>>) -> Level {
    match setting {
        None => Level::Info,
        Some(s) => if lowered(s) == "debug"@ {
            Level::Debug
        } else if lowered(s) == "warn"@ {
            Level::Warn
        } else if lowered(s) == "error"@ {
            Level::Error
        } else {
            Level::Info
        },
    }
}

/// The level that a setting asks for.
pub fn level_from_setting(setting: Option<&str>) -> (l: Level)
    ensures
        l == level_set(
            match setting {
                None => None,
                Some(s) => Some(s@),
            },
        ),
{
    match setting {
        None => Level::Info,
        Some(s) => {
            let low = to_lower(s);
            proof {
                reveal_strlit("debug");
                reveal_strlit("warn");
                reveal_strlit("error");
                assert("debug"@.len() == 5 && "error"@.len() == 5 && "debug"@[0] == 'd');
            }
            if same(low.as_str(), "debug") {
                Level::Debug
            } else if same(low.as_str(), "warn") {
                Level::Warn
            } else if same(low.as_str(), "error") {
                Level::Error
            } else {
                Level::Info
            }
        },
    }
}

/// The colours of components, by number.
pub open spec fn colour_at(i: nat) -> Seq<char> {
    if i == 0 {
        "\x1b[38;5;73m"@
    } else if i == 1 {
        "\x1b[38;5;110m"@
    } else if i == 2 {
        "\x1b[38;5;139m"@
    } else if i == 3 {
        "\x1b[38;5;108m"@
    } else if i == 4 {
        "\x1b[38;5;180m"@
    } else {
        "\x1b[38;5;146m"@
    }
}

/// The FNV-1a hash of some bytes.
pub open spec fn fnv1a(bytes: Seq<u8>) -> u64
    decreases bytes.len(),
{
    if bytes.len() == 0 {
        0xcbf2_9ce4_8422_2325
    } else {
        (fnv1a(bytes.drop_last()) ^ (bytes.last() as u64)).wrapping_mul(0x1000_0000_01b3)
    }
}

/// The colour of a component: the same in every line.
pub open spec fn colour_of(name: Seq<char>) -> Seq<char> {
    colour_at(fnv1a(encode_utf8(name)) as nat % 6)
}

/// The colour of a component.
pub fn component_colour(name: &str) -> (s: &'static str)
    ensures
        s@ == colour_of(name@),
{
    let bytes = name.as_bytes();
    let mut h: u64 = 0xcbf2_9ce4_8422_2325;
    let mut i: usize = 0;
    assert(bytes@.take(0) =~= Seq::<u8>::empty());
    while i < bytes.len()
        invariant
            i <= bytes@.len(),
            h == fnv1a(bytes@.take(i as int)),
        decreases bytes@.len() - i,
    {
        assert(bytes@.take(i + 1).drop_last() =~= bytes@.take(i as int));
        h = (h ^ (bytes[i] as u64)).wrapping_mul(0x1000_0000_01b3);
        i = i + 1;
    }
    assert(bytes@.take(i as int) =~= bytes@);
    let k: u64 = h % 6;
    if k == 0 {
        "\x1b[38;5;73m"
    } else if k == 1 {
        "\x1b[38;5;110m"
    } else if k == 2 {
        "\x1b[38;5;139m"
    } else if k == 3 {
        "\x1b[38;5;108m"
    } else if k == 4 {
        "\x1b[38;5;180m"
    } else {
        "\x1b[38;5;146m"
    }
}

/// A text in a colour, where colours are shown.
pub open spec fn painted(colour: bool, code: Seq<char>, text: Seq<char>) -> Seq<char> {
    if colour {
        code + text + RESET@
    } else {
        text
    }
}

/// A text in a colour, where colours are shown.
pub fn paint(colour: bool, code: &str, text: &str) -> (out: String)
    ensures
        out@ == painted(colour, code@, text@),
{
    if colour {
        let mut out = code.to_owned();
        out.append(text);
        out.append(RESET);
        out
    } else {
        text.to_owned()
    }
}

/// A text in a colour that it may not have.
pub open spec fn maybe_painted(colour: bool, code: Option<Seq<char>>, text: Seq<char>) -> Seq<char> {
    match code {
        Some(c) => painted(colour, c, text),
        None => text,
    }
}

fn maybe_paint(colour: bool, code: Option<&'static str>, text: &str) -> (out: String)
    ensures
        out@ == maybe_painted(colour, opt_view(code), text@),
{
    match code {
        Some(c) => paint(colour, c, text),
        None => text.to_owned(),
    }
}

/// As many blanks.
pub open spec fn blanks(n: nat) -> Seq<char> {
    Seq::new(n, |i: int| ' ')
}

/// A component's name in its column. One that is too long takes the room it
/// needs, and one blank.
pub open spec fn in_column(name: Seq<char>, width: nat) -> Seq<char> {
    if encode_utf8(name).len() >= width {
        name + " "@
    } else if name.len() < width {
        name + blanks((width - name.len()) as nat)
    } else {
        name
    }
}

fn pad_component(name: &str, width: usize) -> (out: String)
    ensures
        out@ == in_column(name@, width as nat),
{
    let mut out = name.to_owned();
    if name.as_bytes().len() >= width {
        out.append(" ");
        return out;
    }
    let n: usize = name.unicode_len();
    if n < width {
        let ghost all = blanks((width - n) as nat);
        let mut i: usize = n;
        assert(name@ + all.take(0) =~= name@);
        while i < width
            invariant
                n <= i <= width,
                all == blanks((width - n) as nat),
                out@ == name@ + all.take(i - n),
            decreases width - i,
        {
            out.push(' ');
            assert(name@ + all.take(i + 1 - n) =~= (name@ + all.take(i - n)).push(' '));
            i = i + 1;
        }
        assert(all.take(width - n) =~= all);
    }
    out
}

/// The named values behind a message, in a line.
pub open spec fn field_texts(colour: bool, fields: Seq<(String, String)>) -> Seq<char>
    decreases fields.len(),
{
    if fields.len() == 0 {
        Seq::empty()
    } else {
        field_texts(colour, fields.drop_last()) + ("  "@ + painted(
            colour,
            MUTE@,
            fields.last().0@ + "="@,
        ) + painted(colour, VAL@, fields.last().1@))
    }
}

/// A line for the terminal.
pub open spec fn terminal_line(
    colour: bool,
    secs: nat,
    level: Level,
    component: Seq<char>,
    width: nat,
    msg: Seq<char>,
    fields: Seq<(String, String)>,
) -> Seq<char> {
    painted(colour, DIM@, wall_time(secs)) + "  "@ + maybe_painted(
        colour,
        tag_colour_of(level),
        "["@ + tag_of(level) + "]"@,
    ) + "  "@ + painted(colour, colour_of(component), in_column(component, width)) + "  "@
        + maybe_painted(colour, msg_colour_of(level), msg) + field_texts(colour, fields)
}

/// What a logger writes under: the component's name, which levels go to the
/// terminal and which to the file, and how wide the component's column is.
#[derive(Debug)]
pub struct LogSettings {
    pub component: String,
    pub stderr_level: Level,
    pub file_level: Level,
    pub comp_width: usize,
}

impl LogSettings {
    /// The usual settings: the file takes everything.
    pub fn new(component: &str, stderr_level: Level) -> (s: LogSettings)
        ensures
            s.component@ == component@,
            s.stderr_level == stderr_level,
            s.file_level == Level::Debug,
            s.comp_width == 18,
    {
        LogSettings {
            component: component.to_owned(),
            stderr_level,
            file_level: Level::Debug,
            comp_width: 18,
        }
    }

    /// The same settings for another component.
    pub fn with_component(&self, component: &str) -> (s: LogSettings)
        ensures
            s.component@ == component@,
            s.stderr_level == self.stderr_level,
            s.file_level == self.file_level,
            s.comp_width == self.comp_width,
    {
        LogSettings {
            component: component.to_owned(),
            stderr_level: self.stderr_level,
            file_level: self.file_level,
            comp_width: self.comp_width,
        }
    }

    /// The line for the terminal, where a message of that level goes there.
    pub fn line(
        &self,
        colour: bool,
        secs: u64,
        level: Level,
        msg: &str,
        fields: &Vec<(String, String)>,
    ) -> (r: Option<String>)
        ensures
            match r {
                None => rank_of(level) < rank_of(self.stderr_level),
                Some(out) => rank_of(level) >= rank_of(self.stderr_level) && out@ == terminal_line(
                    colour,
                    secs as nat,
                    level,
                    self.component@,
                    self.comp_width as nat,
                    msg@,
                    fields@,
                ),
            },
    {
        if level.rank() < self.stderr_level.rank() {
            return None;
        }
        let time = format_wall_time(secs);
        let mut out = paint(colour, DIM, time.as_str());
        out.append("  ");
        let mut tag = "[".to_owned();
        tag.append(level.tag());
        tag.append("]");
        out.append(maybe_paint(colour, level.tag_colour(), tag.as_str()).as_str());
        out.append("  ");
        let comp = pad_component(self.component.as_str(), self.comp_width);
        let code = component_colour(self.component.as_str());
        out.append(paint(colour, code, comp.as_str()).as_str());
        out.append("  ");
        out.append(maybe_paint(colour, level.msg_colour(), msg).as_str());
        let mut tail = String::new();
        let mut i: usize = 0;
        assert(fields@.take(0) =~= Seq::<(String, String)>::empty());
        assert(tail@ =~= Seq::<char>::empty());
        while i < fields.len()
            invariant
                i <= fields@.len(),
                tail@ == field_texts(colour, fields@.take(i as int)),
            decreases fields@.len() - i,
        {
            assert(fields@.take(i + 1).drop_last() =~= fields@.take(i as int));
            let mut key = fields[i].0.clone();
            key.append("=");
            let mut pair = "  ".to_owned();
            pair.append(paint(colour, MUTE, key.as_str()).as_str());
            pair.append(paint(colour, VAL, fields[i].1.as_str()).as_str());
            tail.append(pair.as_str());
            i = i + 1;
        }
        assert(fields@.take(i as int) =~= fields@);
        out.append(tail.as_str());
        Some(out)
    }

    /// The entry for the file, where a message of that level goes there.
    pub fn record<'a>(&self, ns: u64, level: Level, msg: &str, fields: &Vec<(String, String)>) -> (r:
        Option<JsonOut<'a>>)
        ensures
            match r {
                None => rank_of(level) < rank_of(self.file_level),
                Some(j) => rank_of(level) >= rank_of(self.file_level) && shows(
                    j,
                    JsonModel::Object(
                        with_fields(record_head(ns as nat, level, self.component@, msg@), fields@),
                    ),
                ),
            },
    {
        if level.rank() < self.file_level.rank() {
            return None;
        }
        let mut o = ObjectOut::new();
        let ts: u128 = round_half_up(ns as u128, 100_000);
        o.put_ratio("ts", ts, 10_000);
        o.put_text("level", level.name());
        o.put_text("component", self.component.as_str());
        o.put_text("msg", msg);
        let ghost head = record_head(ns as nat, level, self.component@, msg@);
        assert(o.model@ =~= head);
        let mut i: usize = 0;
        assert(fields@.take(0) =~= Seq::<(String, String)>::empty());
        while i < fields.len()
            invariant
                i <= fields@.len(),
                o.wf(),
                o.model@ == with_fields(head, fields@.take(i as int)),
            decreases fields@.len() - i,
        {
            assert(fields@.take(i + 1).drop_last() =~= fields@.take(i as int));
            let f = &fields[i];
            o.insert(
                f.0.as_str(),
                JsonOut::Text(f.1.clone()),
                Ghost(JsonModel::Text(f.1@)),
            );
            i = i + 1;
        }
        assert(fields@.take(i as int) =~= fields@);
        Some(o.done())
    }
}

/// The entries that every record has, the time to a tenth of a millisecond.
pub open spec fn record_head(ns: nat, level: Level, component: Seq<char>, msg: Seq<char>) -> Seq<
    (Seq<char>, JsonModel),
> {
    seq![
        ("ts"@, JsonModel::Ratio(nearest(ns, 100_000), 10_000)),
        ("level"@, JsonModel::Text(level_name(level))),
        ("component"@, JsonModel::Text(component)),
        ("msg"@, JsonModel::Text(msg)),
    ]
}

/// The entries with the named values put in; a later one takes the place of an
/// earlier one of its name.
pub open spec fn with_fields(
    head: Seq<(Seq<char>, JsonModel)>,
    fields: Seq<(String, String)>,
) -> Seq<(Seq<char>, JsonModel)>
    decreases fields.len(),
{
    if fields.len() == 0 {
        head
    } else {
        with_entry(
            with_fields(head, fields.drop_last()),
            fields.last().0@,
            JsonModel::Text(fields.last().1@),
        )
    }
}

/// The report as it is written: with where the log is, and whose it is.
pub open spec fn finalized(m: JsonModel, jsonl_path: Seq<char>, component: Seq<char>) -> JsonModel {
    let entries = match m {
        JsonModel::Object(ms) => ms,
        _ => Seq::empty(),
    };
    JsonModel::Object(
        with_entry(
            with_entry(entries, "_jsonl_path"@, JsonModel::Text(jsonl_path)),
            "_component"@,
            JsonModel::Text(component),
        ),
    )
}

/// Adds to a report where the log is, and whose it is. A report that is no
/// object is left out.
pub fn finalize<'a>(summary: JsonOut<'a>, jsonl_path: &str, component: &str) -> (j: JsonOut<'a>)
    ensures
        shows(j, finalized(meaning(summary), jsonl_path@, component@)),
{
    let ghost m = meaning(summary);
    proof {
        law_values_have_a_meaning(summary);
    }
    let mut o = match summary {
        JsonOut::Object(v) => {
            let ghost ms = m->Object_0;
            ObjectOut { entries: v, model: Ghost(ms) }
        },
        _ => ObjectOut::new(),
    };
    o.insert(
        "_jsonl_path",
        JsonOut::Text(jsonl_path.to_owned()),
        Ghost(JsonModel::Text(jsonl_path@)),
    );
    o.insert(
        "_component",
        JsonOut::Text(component.to_owned()),
        Ghost(JsonModel::Text(component@)),
    );
    o.done()
}

/// The component's name as it stands in a file's name.
pub open spec fn safe_name(component: Seq<char>) -> Seq<char> {
    replaced(replaced(component, '/', '-'), ' ', '_')
}

/// Where a component's log and its report are, in the directory of a run.
pub fn log_files(run_dir: &str, component: &str) -> (r: (String, String))
    ensures
        r.0@ == path_from(run_dir@, safe_name(component@) + ".jsonl"@),
        r.1@ == path_from(run_dir@, safe_name(component@) + "_summary.json"@),
{
    let safe = replace_char(replace_char(component, '/', '-').as_str(), ' ', '_');
    let mut log = safe.clone();
    log.append(".jsonl");
    let mut report = safe;
    report.append("_summary.json");
    (join_path(run_dir, log.as_str()), join_path(run_dir, report.as_str()))
}

/// The variable that names the directory of a run.
pub const RUN_DIR_ENV: &'static str = "EPICO_RUN_DIR";

/// The `n`-th name for the directory of a run that starts then.
pub open spec fn run_name(secs: nat, n: nat) -> Seq<char> {
    if n <= 1 {
        "run_"@ + time_slug(secs)
    } else {
        "run_"@ + time_slug(secs) + "_"@ + decimal(n)
    }
}

/// The first name that is not taken is the `n`-th.
pub open spec fn first_free(secs: nat, taken: Seq<Seq<char>>, n: nat) -> bool {
    &&& 1 <= n
    &&& !taken.contains(run_name(secs, n))
    &&& forall|k: nat| 1 <= k < n ==> #[trigger] taken.contains(run_name(secs, k))
}

/// Law: the names for a run's directory are all different.
pub proof fn law_run_names_are_apart(secs: nat, a: nat, b: nat)
    requires
        1 <= a,
        1 <= b,
        run_name(secs, a) == run_name(secs, b),
    ensures
        a == b,
{
    law_decimal_reads_back(a);
    law_decimal_reads_back(b);
    let base = "run_"@ + time_slug(secs);
    let (x, y) = (run_name(secs, a), run_name(secs, b));
    reveal_strlit("_");
    if a > 1 && b > 1 {
        let head = base + "_"@;
        assert(x.skip(head.len() as int) =~= decimal(a));
        assert(y.skip(head.len() as int) =~= decimal(b));
    } else if a > 1 {
        assert(x.len() > y.len());
    } else if b > 1 {
        assert(y.len() > x.len());
    }
}

fn place_of(names: &Vec<String>, name: &str) -> (r: Option<usize>)
    ensures
        match r {
            None => !owned_views(names@).contains(name@),
            Some(i) => i < names@.len() && names@[i as int]@ == name@,
        },
{
    let mut i: usize = 0;
    while i < names.len()
        invariant
            i <= names@.len(),
            forall|k: int| 0 <= k < i ==> (#[trigger] names@[k])@ != name@,
        decreases names@.len() - i,
    {
        if same(names[i].as_str(), name) {
            return Some(i);
        }
        i = i + 1;
    }
    assert forall|k: int| 0 <= k < names@.len() implies owned_views(names@)[k] != name@ by {
        assert(names@[k]@ != name@);
    }
    None
}

fn name_of(secs: u64, n: u128) -> (out: String)
    ensures
        out@ == run_name(secs as nat, n as nat),
{
    let mut out = "run_".to_owned();
    out.append(format_ts_slug(secs).as_str());
    if n > 1 {
        out.append("_");
        out.append(decimal_text(n).as_str());
    }
    out
}

/// The directory of a run: the one that whoever started it named, or else a new
/// one, under the first name that is not taken yet.
pub fn resolve_run_dir(named: Option<&str>, log_dir: &str, secs: u64, taken: &Vec<String>) -> (out:
    String)
    ensures
        named matches Some(d) && d@.len() > 0 ==> out@ == named->0@,
        !(named matches Some(d) && d@.len() > 0) ==> exists|n: nat|
            first_free(secs as nat, owned_views(taken@), n) && out@ == path_from(
                log_dir@,
                #[trigger] run_name(secs as nat, n),
            ),
{
    if let Some(d) = named {
        if d.unicode_len() > 0 {
            return d.to_owned();
        }
    }
    let ghost all = owned_views(taken@);
    let mut left: Vec<String> = Vec::new();
    let mut i: usize = 0;
    while i < taken.len()
        invariant
            i <= taken@.len(),
            left@.len() == i,
            forall|k: int| 0 <= k < i ==> left@[k]@ == (#[trigger] taken@[k])@,
        decreases taken@.len() - i,
    {
        left.push(taken[i].clone());
        i = i + 1;
    }
    assert(owned_views(left@) =~= all);
    let ghost size = left@.len();
    let mut n: u128 = 1;
    loop
        invariant
            1 <= n,
            !(named matches Some(d) && d@.len() > 0),
            all == owned_views(taken@),
            size <= usize::MAX,
            n + left@.len() <= size + 1,
            forall|k: nat|
                1 <= k < n ==> #[trigger] all.contains(run_name(secs as nat, k)),
            forall|k: nat|
                k >= n ==> (all.contains(#[trigger] run_name(secs as nat, k)) <==> owned_views(
                    left@,
                ).contains(run_name(secs as nat, k))),
        decreases left@.len(),
    {
        let name = name_of(secs, n);
        let ghost was = owned_views(left@);
        assert(name@ == run_name(secs as nat, n as nat));
        match place_of(&left, name.as_str()) {
            None => {
                assert(first_free(secs as nat, all, n as nat));
                return join_path(log_dir, name.as_str());
            },
            Some(at) => {
                let _same = left.remove(at);
                proof {
                    assert(was[at as int] == name@);
                    assert(all.contains(name@));
                    let now = owned_views(left@);
                    assert(now =~= was.remove(at as int));
                    assert forall|k: nat| k >= n + 1 implies (all.contains(
                        #[trigger] run_name(secs as nat, k),
                    ) <==> now.contains(run_name(secs as nat, k))) by {
                        let other = run_name(secs as nat, k);
                        if other == name@ {
                            law_run_names_are_apart(secs as nat, k, n as nat);
                        }
                        if was.contains(other) {
                            let p = choose|p: int| 0 <= p < was.len() && was[p] == other;
                            if p < at {
                                assert(now[p] == other);
                            } else {
                                assert(now[p - 1] == other);
                            }
                        }
                        if now.contains(other) {
                            let p = choose|p: int| 0 <= p < now.len() && now[p] == other;
                            if p < at {
                                assert(was[p] == other);
                            } else {
                                assert(was[p + 1] == other);
                            }
                        }
                    }
                }
            },
        }
        n = n + 1;
    }
}

} // verus!

//! A structured logging facility: a builder-configured logger that emits
//! leveled, timestamped, field-annotated lines to standard output.  Each line
//! holds a tab-separated header and a JSON-encoded field map; per-call fields
//! override the computed timestamp fields, which override the configured
//! required fields.
//!
//! Design note on failure: serialization cannot fail — the JSON encoder is a
//! verified total function over the closed field-value variants — so no
//! logging call returns an error or panics on the render path.  A failed
//! write to standard output is ignored rather than surfaced or escalated.

use vstd::prelude::*;
use vstd::string::StringExecFns;

use std::io::Write;

pub mod builder;
pub mod fields;
pub mod json;

use crate::builder::{ConfigV, LoggerBuilder, env_flags};
use crate::fields::{FieldV, FieldValue, RequiredFields, map_of, unique_keys};
use crate::json::{json_of, parse_object_text};

verus! {

/// A log severity level.
#[derive(Clone, Copy, Debug, PartialEq, Eq, Structural)]
pub enum Level {
    Info,
    Warn,
    Error,
    Debug,
}

/// The fixed tag text of a level.
pub open spec fn level_tag(level: Level) -> Seq<char> {
    match level {
        Level::Info => "INFO"@,
        Level::Warn => "WARN"@,
        Level::Error => "ERROR"@,
        Level::Debug => "DEBUG"@,
    }
}

/// The tag text of a level, as written into a line.
fn tag_text(level: Level) -> (r: &'static str)
    ensures
        r@ == level_tag(level),
{
    match level {
        Level::Info => "INFO",
        Level::Warn => "WARN",
        Level::Error => "ERROR",
        Level::Debug => "DEBUG",
    }
}

/// No level tag contains an escape character.
proof fn lemma_tag_no_escape(level: Level)
    ensures
        forall|i: int| 0 <= i < level_tag(level).len() ==> level_tag(level)[i] != '\u{1b}',
{
    reveal_strlit("INFO");
    reveal_strlit("WARN");
    reveal_strlit("ERROR");
    reveal_strlit("DEBUG");
    match level {
        Level::Info => {
            assert(level_tag(level) =~= seq!['I', 'N', 'F', 'O']);
        },
        Level::Warn => {
            assert(level_tag(level) =~= seq!['W', 'A', 'R', 'N']);
        },
        Level::Error => {
            assert(level_tag(level) =~= seq!['E', 'R', 'R', 'O', 'R']);
        },
        Level::Debug => {
            assert(level_tag(level) =~= seq!['D', 'E', 'B', 'U', 'G']);
        },
    }
}

/// A wall-clock sample: whole-second and millisecond epoch timestamps and a
/// human-readable rendering of the local time.
#[derive(Debug)]
pub struct Timestamp {
    pub secs: i64,
    pub millis: i64,
    pub display: String,
}

/// The merged field set of one call: the required fields, then the two
/// computed timestamp fields, then the call-supplied fields; each later pass
/// overrides the earlier ones on a shared name.
pub open spec fn merged_fields(
    c: ConfigV,
    secs: int,
    millis: int,
    call: Option<Map<Seq<char>, FieldV>>,
) -> Map<Seq<char>, FieldV> {
    let with_ts = c.fields.insert(c.ts_second, FieldV::N(secs)).insert(
        c.ts_millisecond,
        FieldV::N(millis),
    );
    match call {
        Option::None => with_ts,
        Option::Some(m) => with_ts.union_prefer_right(m),
    }
}

/// The model of the call-supplied field map, when one was supplied.
pub open spec fn call_view(fields: Option<&RequiredFields>) -> Option<Map<Seq<char>, FieldV>> {
    match fields {
        Option::None => Option::None,
        Option::Some(f) => Option::Some(f@),
    }
}

/// The ANSI style prefix for each level's fixed color: blue for Info,
/// yellow for Warn, red for Error, green for Debug.
pub open spec fn ansi_style(level: Level) -> Seq<char> {
    match level {
        Level::Info => seq!['\u{1b}', '[', '3', '4', 'm'],
        Level::Warn => seq!['\u{1b}', '[', '3', '3', 'm'],
        Level::Error => seq!['\u{1b}', '[', '3', '1', 'm'],
        Level::Debug => seq!['\u{1b}', '[', '3', '2', 'm'],
    }
}

/// The ANSI reset suffix that closes a colored tag.
pub open spec fn ansi_reset() -> Seq<char> {
    seq!['\u{1b}', '[', '0', 'm']
}

/// The tag as displayed: exactly the tag text when color is off; with color
/// on, either the plain tag text (the terminal environment may disable
/// color) or the tag wrapped in the level's ANSI style and a reset.
pub open spec fn decorated_tag(deco: Seq<char>, level: Level, color: bool) -> bool {
    if color {
        deco == level_tag(level) || deco == ansi_style(level) + level_tag(level) + ansi_reset()
    } else {
        deco == level_tag(level)
    }
}

/// One output line, newline excluded: the timestamp display, the decorated
/// level tag, the message, and the JSON field body, tab-separated.
pub open spec fn line_of(display: Seq<char>, deco: Seq<char>, msg: Seq<char>, body: Seq<char>) -> Seq<
    char,
> {
    display + seq!['\t'] + deco + seq!['\t'] + msg + seq!['\t'] + body
}

/// `line` is a correct rendering of one call: its JSON body encodes an entry
/// sequence with unique keys that denotes exactly the merged field set, and
/// its header carries the timestamp display, the (decorated) level tag and
/// the message.
pub open spec fn rendered_line(
    line: Seq<char>,
    c: ConfigV,
    level: Level,
    msg: Seq<char>,
    secs: int,
    millis: int,
    display: Seq<char>,
    call: Option<Map<Seq<char>, FieldV>>,
) -> bool {
    exists|deco: Seq<char>, entries: Seq<(Seq<char>, FieldV)>|
        #![trigger line_of(display, deco, msg, json_of(entries))]
        decorated_tag(deco, level, env_flags(c.env)) && unique_keys(entries) && map_of(entries)
            == merged_fields(c, secs, millis, call) && line == line_of(
            display,
            deco,
            msg,
            json_of(entries),
        )
}

/// Relies on `colored::Colorize::color` and `ColoredString`'s `Display`: for
/// a plain string given only a foreground color, the displayed text is
/// either the input itself (when the terminal environment disables color) or
/// the color's ANSI style prefix, the input, and the ANSI reset; an input
/// free of escape characters is never altered inside.
#[verifier::external_body]
fn colorize(tag: &str, level: Level) -> (r: String)
    requires
        forall|i: int| 0 <= i < tag@.len() ==> tag@[i] != '\u{1b}',
    ensures
        r@ == tag@ || r@ == ansi_style(level) + tag@ + ansi_reset(),
{
    let color = match level {
        Level::Info => colored::Color::Blue,
        Level::Warn => colored::Color::Yellow,
        Level::Error => colored::Color::Red,
        Level::Debug => colored::Color::Green,
    };
    colored::Colorize::color(tag, color).to_string()
}

/// Relies on `chrono::offset::Local::now` and `DateTime`'s `timestamp`,
/// `timestamp_millis` and `Display`: a sample of the local wall clock.
/// Nothing is promised of the result: it depends on the machine's clock.
/// chrono aborts on a clock set before the epoch, so such a clock is
/// answered with a fixed epoch sample instead of a chrono call.  A failed
/// platform time-zone lookup still aborts inside chrono; no public chrono
/// entry point makes that fallible.
#[verifier::external_body]
fn now_timestamp() -> Timestamp {
    match std::time::SystemTime::now().duration_since(std::time::UNIX_EPOCH) {
        Ok(_) => {
            let now = chrono::offset::Local::now();
            Timestamp {
                secs: now.timestamp(),
                millis: now.timestamp_millis(),
                display: now.to_string(),
            }
        },
        Err(_) => Timestamp { secs: 0, millis: 0, display: String::new() },
    }
}

/// Relies on `std::io::Stdout`: writes the line and a terminating newline to
/// standard output in one call; a write failure is ignored.
#[verifier::external_body]
fn emit_line(line: &str) {
    let mut out = std::io::stdout();
    let _ = writeln!(out, "{}", line);
}

/// An immutable logger: a configuration snapshot plus the render behaviour.
/// Every logging call merges the fields, renders one line and writes it to
/// standard output.
#[derive(Debug)]
pub struct Logger {
    builder: LoggerBuilder,
}

impl View for Logger {
    type V = ConfigV;

    open(crate) spec fn view(&self) -> ConfigV {
        self.builder@
    }
}

impl Logger {
    /// The held configuration is well formed.
    pub open(crate) spec fn wf(&self) -> bool {
        self.builder.wf()
    }

    /// Snapshots the builder's configuration into a new logger.
    pub(crate) fn new(builder: &LoggerBuilder) -> (r: Self)
        requires
            builder.wf(),
        ensures
            r.wf(),
            r@ == builder@,
    {
        Logger { builder: builder.clone() }
    }

    /// Renders the line that one call would print, against the supplied
    /// wall-clock sample.  Returns `None` exactly for a suppressed call: a
    /// debug-level message outside the Local and Test environments.
    pub fn render(&self, level: Level, msg: &str, fields: Option<&RequiredFields>, now: &Timestamp) -> (r:
        Option<String>)
        requires
            self.wf(),
        ensures
            r is Some <==> !(level is Debug && !env_flags(self@.env)),
            r matches Some(line) ==> rendered_line(
                line@,
                self@,
                level,
                msg@,
                now.secs as int,
                now.millis as int,
                now.display@,
                call_view(fields),
            ),
    {
        if matches!(level, Level::Debug) && !self.builder.show_debug() {
            return Option::None;
        }
        let mut merged = self.builder.required_fields.data();
        merged.add(self.builder.timestamp_second_field_name(), FieldValue::Number(now.secs));
        merged.add(self.builder.timestamp_millisecond_field_name(), FieldValue::Number(now.millis));
        match fields {
            Option::Some(f) => merged.merge(f),
            Option::None => {},
        }
        proof {
            assert(merged@ == merged_fields(
                self@,
                now.secs as int,
                now.millis as int,
                call_view(fields),
            ));
        }
        let body = crate::json::encode_fields(&merged);
        let plain = tag_text(level);
        let deco: String = if self.builder.has_color() {
            proof {
                lemma_tag_no_escape(level);
            }
            colorize(plain, level)
        } else {
            plain.to_owned()
        };
        let mut line = now.display.clone();
        line.append("\t");
        line.append(deco.as_str());
        line.append("\t");
        line.append(msg);
        line.append("\t");
        line.append(body.as_str());
        proof {
            reveal_strlit("\t");
            assert("\t"@ =~= seq!['\t']);
            assert(line@ == line_of(now.display@, deco@, msg@, json_of(merged.entries_v())));
            assert(decorated_tag(deco@, level, env_flags(self@.env)));
            assert(rendered_line(
                line@,
                self@,
                level,
                msg@,
                now.secs as int,
                now.millis as int,
                now.display@,
                call_view(fields),
            ));
        }
        Option::Some(line)
    }

    /// Samples the clock, renders and writes one line; a suppressed call
    /// writes nothing.
    fn print(&self, level: Level, msg: &str, fields: Option<&RequiredFields>)
        requires
            self.wf(),
    {
        let now = now_timestamp();
        match self.render(level, msg, fields, &now) {
            Option::Some(line) => emit_line(line.as_str()),
            Option::None => {},
        }
    }

    /// Prints a message to standard output at the information level.
    pub fn info(&self, msg: &str)
        requires
            self.wf(),
    {
        self.print(Level::Info, msg, Option::None)
    }

    /// Prints a message at the information level with extra per-call fields.
    pub fn infof(&self, msg: &str, fields: &RequiredFields)
        requires
            self.wf(),
    {
        self.print(Level::Info, msg, Option::Some(fields))
    }

    /// Prints a message to standard output at the error level.
    pub fn error(&self, msg: &str)
        requires
            self.wf(),
    {
        self.print(Level::Error, msg, Option::None)
    }

    /// Prints a message at the error level with extra per-call fields.
    pub fn errorf(&self, msg: &str, fields: &RequiredFields)
        requires
            self.wf(),
    {
        self.print(Level::Error, msg, Option::Some(fields))
    }

    /// Prints a message at the debug level; a no-op unless debug messages
    /// are shown in the held environment.
    pub fn debug(&self, msg: &str)
        requires
            self.wf(),
    {
        self.print(Level::Debug, msg, Option::None)
    }

    /// Prints a message at the debug level with extra per-call fields; a
    /// no-op unless debug messages are shown in the held environment.
    pub fn debugf(&self, msg: &str, fields: &RequiredFields)
        requires
            self.wf(),
    {
        self.print(Level::Debug, msg, Option::Some(fields))
    }

    /// Prints a message to standard output at the warning level.
    pub fn warn(&self, msg: &str)
        requires
            self.wf(),
    {
        self.print(Level::Warn, msg, Option::None)
    }

    /// Prints a message at the warning level with extra per-call fields.
    pub fn warnf(&self, msg: &str, fields: &RequiredFields)
        requires
            self.wf(),
    {
        self.print(Level::Warn, msg, Option::Some(fields))
    }
}

/// Precedence law.  In the merged field set of any call: a name present in
/// the call-supplied fields carries the call-supplied value; otherwise the
/// computed timestamp fields carry the fresh timestamps (the millisecond
/// name winning if the two names collide); otherwise a required field
/// carries its configured value.
pub proof fn lemma_field_precedence(
    c: ConfigV,
    secs: int,
    millis: int,
    call: Map<Seq<char>, FieldV>,
    k: Seq<char>,
)
    ensures
        call.contains_key(k) ==> merged_fields(c, secs, millis, Some(call))[k] == call[k],
        !call.contains_key(k) && k == c.ts_millisecond ==> merged_fields(c, secs, millis, Some(call))[k]
            == FieldV::N(millis),
        !call.contains_key(k) && k != c.ts_millisecond && k == c.ts_second ==> merged_fields(
            c,
            secs,
            millis,
            Some(call),
        )[k] == FieldV::N(secs),
        !call.contains_key(k) && k != c.ts_millisecond && k != c.ts_second && c.fields.contains_key(
            k,
        ) ==> merged_fields(c, secs, millis, Some(call))[k] == c.fields[k],
        k == c.ts_millisecond ==> merged_fields(c, secs, millis, None)[k] == FieldV::N(millis),
        k != c.ts_millisecond && k == c.ts_second ==> merged_fields(c, secs, millis, None)[k]
            == FieldV::N(secs),
        k != c.ts_millisecond && k != c.ts_second && c.fields.contains_key(k) ==> merged_fields(
            c,
            secs,
            millis,
            None,
        )[k] == c.fields[k],
{
}

/// Computed-timestamp law.  Whenever the two configured timestamp names
/// differ, each computed field carries its own fresh timestamp in the
/// merged set, whatever the required fields hold of those names, unless a
/// call-supplied field overrides it.  (With equal names there is one entry
/// and the millisecond value wins: see `lemma_field_precedence`.)
pub proof fn lemma_computed_timestamp_fields(
    c: ConfigV,
    secs: int,
    millis: int,
    call: Option<Map<Seq<char>, FieldV>>,
)
    requires
        c.ts_second != c.ts_millisecond,
    ensures
        (match call {
            Option::None => true,
            Option::Some(m) => !m.contains_key(c.ts_second),
        }) ==> merged_fields(c, secs, millis, call)[c.ts_second] == FieldV::N(secs),
        (match call {
            Option::None => true,
            Option::Some(m) => !m.contains_key(c.ts_millisecond),
        }) ==> merged_fields(c, secs, millis, call)[c.ts_millisecond] == FieldV::N(millis),
{
}

/// Round-trip law.  The field portion of every rendered line is parseable
/// JSON whose decoded mapping is exactly the merged field set that produced
/// the line.
pub proof fn lemma_rendered_body_round_trip(
    line: Seq<char>,
    c: ConfigV,
    level: Level,
    msg: Seq<char>,
    secs: int,
    millis: int,
    display: Seq<char>,
    call: Option<Map<Seq<char>, FieldV>>,
)
    requires
        rendered_line(line, c, level, msg, secs, millis, display, call),
    ensures
        exists|deco: Seq<char>, entries: Seq<(Seq<char>, FieldV)>|
            #![trigger line_of(display, deco, msg, json_of(entries))]
            line == line_of(display, deco, msg, json_of(entries)) && parse_object_text(
                json_of(entries),
            ) == Option::Some(entries) && map_of(entries) == merged_fields(c, secs, millis, call),
{
    let (deco, entries) = choose|deco: Seq<char>, entries: Seq<(Seq<char>, FieldV)>|
        #![trigger line_of(display, deco, msg, json_of(entries))]
        decorated_tag(deco, level, env_flags(c.env)) && unique_keys(entries) && map_of(entries)
            == merged_fields(c, secs, millis, call) && line == line_of(
            display,
            deco,
            msg,
            json_of(entries),
        );
    crate::json::lemma_json_round_trip(entries);
    assert(line == line_of(display, deco, msg, json_of(entries)));
}

} // verus!

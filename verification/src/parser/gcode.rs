//! Reading G-code line by line: comments that declare totals, layer markers,
//! and the commands that select a tool, switch the extrusion mode or extrude.
//!
//! Extrusion amounts are decimal fractions; this module hands their text on
//! and leaves the arithmetic on them to the caller.
use crate::error::AppError;
use crate::text::{
    ascii_words, ascii_words_from, before_first, before_first_seq, chars_of, first_ascii_word,
    first_ascii_word_seq, next_ascii_word, parse_unsigned, parse_unsigned_seq, slice_chars,
    split_once, split_once_seq, starts_with_seq, str_eq, strip_prefix, strip_prefix_seq, trim,
    trim_seq,
};
use vstd::prelude::*;

verus! {

/// The comment of a line: the trimmed text after its first `;`.
pub open spec fn comment_seq(line: Seq<char>) -> Option<Seq<char>> {
    match split_once_seq(line, ";"@) {
        Some(parts) => Some(trim_seq(parts.1)),
        None => None,
    }
}

pub open spec fn parse_u32_seq(s: Seq<char>) -> Option<u32> {
    match parse_unsigned_seq(s, u32::MAX as int) {
        Some(n) => Some(n as u32),
        None => None,
    }
}

/// The layer a line's comment marks: `CHANGE_LAYER` is the next layer in
/// sequence, `LAYER:<n>` is layer `n`, and `layer num/total_layer_count: <n>/<t>`
/// counts from one, so it is layer `n - 1`.
pub open spec fn layer_marker_spec(line: Seq<char>, next_sequential_layer: u32) -> Option<u32> {
    match comment_seq(line) {
        None => None,
        Some(c) => if c == "CHANGE_LAYER"@ {
            Some(next_sequential_layer)
        } else {
            match strip_prefix_seq(c, "LAYER:"@) {
                Some(value) => match first_ascii_word_seq(value) {
                    Some(w) => parse_u32_seq(w),
                    None => None,
                },
                None => match strip_prefix_seq(c, "layer num/total_layer_count:"@) {
                    Some(progress) => match parse_u32_seq(
                        trim_seq(before_first_seq(trim_seq(progress), "/"@)),
                    ) {
                        Some(n) => if n >= 1 {
                            Some((n - 1) as u32)
                        } else {
                            None
                        },
                        None => None,
                    },
                    None => None,
                },
            }
        },
    }
}

/// Seconds per unit of a duration component.
pub open spec fn unit_seconds(c: char) -> Option<int> {
    if c == 'h' {
        Some(3600)
    } else if c == 'm' {
        Some(60)
    } else if c == 's' {
        Some(1)
    } else {
        None
    }
}

/// One component such as `1h`, `23m` or `5s`, in seconds, when it fits in a `u32`.
pub open spec fn component_seconds(w: Seq<char>) -> Option<int> {
    if w.len() == 0 {
        None
    } else {
        match unit_seconds(w.last()) {
            None => None,
            Some(m) => match parse_unsigned_seq(w.drop_last(), u32::MAX as int) {
                None => None,
                Some(a) => if a * m <= u32::MAX {
                    Some(a * m)
                } else {
                    None
                },
            },
        }
    }
}

/// The total of the components, when every one is valid and every partial sum fits.
pub open spec fn seconds_sum(ws: Seq<Seq<char>>) -> Option<int>
    decreases ws.len(),
{
    if ws.len() == 0 {
        Some(0)
    } else {
        match seconds_sum(ws.drop_last()) {
            None => None,
            Some(t) => match component_seconds(ws.last()) {
                None => None,
                Some(c) => if t + c <= u32::MAX {
                    Some(t + c)
                } else {
                    None
                },
            },
        }
    }
}

/// A declared duration such as `1h 23m 5s`: at least one component, every one valid.
pub open spec fn estimated_seconds_spec(value: Seq<char>) -> Option<u32> {
    let ws = ascii_words(value);
    if ws.len() == 0 {
        None
    } else {
        match seconds_sum(ws) {
            Some(t) => Some(t as u32),
            None => None,
        }
    }
}

/// The values of the words that start with `E`, in order, without the `E`.
pub open spec fn e_values(ws: Seq<Seq<char>>) -> Seq<Seq<char>>
    decreases ws.len(),
{
    if ws.len() == 0 {
        seq![]
    } else {
        (if starts_with_seq(ws[0], "E"@) {
            seq![ws[0].drop_first()]
        } else {
            seq![]
        }) + e_values(ws.drop_first())
    }
}

/// The first word `S<n>` whose `n` is a tool number.
pub open spec fn first_s_tool(ws: Seq<Seq<char>>) -> Option<u8>
    decreases ws.len(),
{
    if ws.len() == 0 {
        None
    } else if starts_with_seq(ws[0], "S"@) && parse_unsigned_seq(ws[0].drop_first(), 255) is Some {
        Some(parse_unsigned_seq(ws[0].drop_first(), 255)->0 as u8)
    } else {
        first_s_tool(ws.drop_first())
    }
}

/// What a G-code command asks for.
#[derive(Debug, Clone, PartialEq, Eq)]
pub enum GcodeCommand {
    /// A blank line, a comment, or a command without bearing on extrusion.
    Nothing,
    /// `M82`: extrusion positions are absolute.
    AbsoluteExtrusion,
    /// `M83`: extrusion amounts are relative.
    RelativeExtrusion,
    /// `T<n>`, or `M1020` with `S<n>`: the active tool changes.
    SelectTool(u8),
    /// `G92`: the extrusion position is set; the texts of its `E` values, in order.
    ResetPosition(Vec<String>),
    /// `G0`/`G1`: a move; the texts of its `E` values, in order.
    Extrude(Vec<String>),
}

/// A command as the specification sees it.
pub enum CommandSpec {
    Nothing,
    AbsoluteExtrusion,
    RelativeExtrusion,
    SelectTool(u8),
    ResetPosition(Seq<Seq<char>>),
    Extrude(Seq<Seq<char>>),
}

pub open spec fn strings_view(v: Seq<String>) -> Seq<Seq<char>> {
    v.map_values(|s: String| s@)
}

impl GcodeCommand {
    pub open spec fn spec_view(&self) -> CommandSpec {
        match self {
            GcodeCommand::Nothing => CommandSpec::Nothing,
            GcodeCommand::AbsoluteExtrusion => CommandSpec::AbsoluteExtrusion,
            GcodeCommand::RelativeExtrusion => CommandSpec::RelativeExtrusion,
            GcodeCommand::SelectTool(t) => CommandSpec::SelectTool(*t),
            GcodeCommand::ResetPosition(v) => CommandSpec::ResetPosition(strings_view(v@)),
            GcodeCommand::Extrude(v) => CommandSpec::Extrude(strings_view(v@)),
        }
    }
}

/// The command of a line: its first word decides, the rest are its arguments.
pub open spec fn classify_spec(line: Seq<char>) -> CommandSpec {
    let ws = ascii_words(trim_seq(before_first_seq(line, ";"@)));
    if ws.len() == 0 {
        CommandSpec::Nothing
    } else {
        let ins = ws[0];
        let rest = ws.drop_first();
        if ins == "M82"@ {
            CommandSpec::AbsoluteExtrusion
        } else if ins == "M83"@ {
            CommandSpec::RelativeExtrusion
        } else if starts_with_seq(ins, "T"@) && parse_unsigned_seq(ins.drop_first(), 255) is Some {
            CommandSpec::SelectTool(parse_unsigned_seq(ins.drop_first(), 255)->0 as u8)
        } else if ins == "M1020"@ {
            match first_s_tool(rest) {
                Some(t) => CommandSpec::SelectTool(t),
                None => CommandSpec::Nothing,
            }
        } else if ins == "G92"@ {
            CommandSpec::ResetPosition(e_values(rest))
        } else if ins == "G0"@ || ins == "G1"@ {
            CommandSpec::Extrude(e_values(rest))
        } else {
            CommandSpec::Nothing
        }
    }
}

/// `line.split_once(';')`, trimmed.
pub fn comment_of(line: &str) -> (r: Option<&str>)
    ensures
        r matches Some(c) ==> comment_seq(line@) == Some(c@),
        r is None ==> comment_seq(line@) is None,
{
    match split_once(line, ";") {
        Some((_, comment)) => Some(trim(comment)),
        None => None,
    }
}

/// `s.parse::<u32>()`.
pub fn parse_u32(s: &str) -> (r: Option<u32>)
    ensures
        r == parse_u32_seq(s@),
{
    match parse_unsigned(s, u32::MAX as u64) {
        Some(n) => Some(n as u32),
        None => None,
    }
}

/// The layer that `line` marks, if any; see `layer_marker_spec`.
pub fn layer_marker(line: &str, next_sequential_layer: u32) -> (r: Option<u32>)
    ensures
        r == layer_marker_spec(line@, next_sequential_layer),
{
    let comment = match comment_of(line) {
        Some(c) => c,
        None => return None,
    };
    if str_eq(comment, "CHANGE_LAYER") {
        return Some(next_sequential_layer);
    }
    if let Some(value) = strip_prefix(comment, "LAYER:") {
        return match first_ascii_word(value) {
            Some(w) => parse_u32(w),
            None => None,
        };
    }
    let progress = match strip_prefix(comment, "layer num/total_layer_count:") {
        Some(p) => p,
        None => return None,
    };
    let current = trim(before_first(trim(progress), "/"));
    match parse_u32(current) {
        Some(n) => if n >= 1 {
            Some(n - 1)
        } else {
            None
        },
        None => None,
    }
}

/// Seconds per unit letter.
fn unit_multiplier(c: char) -> (r: Option<u32>)
    ensures
        r matches Some(m) ==> unit_seconds(c) == Some(m as int),
        r is None ==> unit_seconds(c) is None,
{
    if c == 'h' {
        Some(3600)
    } else if c == 'm' {
        Some(60)
    } else if c == 's' {
        Some(1)
    } else {
        None
    }
}

/// A declared duration such as `1h 23m 5s`, in seconds; see `estimated_seconds_spec`.
pub fn parse_estimated_seconds(value: &str) -> (r: Option<u32>)
    ensures
        r == estimated_seconds_spec(value@),
{
    let v = chars_of(value);
    let mut i: usize = 0;
    let mut seconds: u32 = 0;
    let mut saw_component = false;
    let ghost mut done: Seq<Seq<char>> = seq![];
    while i < v.len()
        invariant
            i <= v@.len(),
            v@ == value@,
            ascii_words(v@) =~= done + ascii_words_from(v@, i as int),
            seconds_sum(done) == Some(seconds as int),
            saw_component == (done.len() > 0),
        decreases v.len() - i,
    {
        match next_ascii_word(&v, i) {
            None => {
                proof {
                    assert(ascii_words(v@) =~= done);
                }
                if saw_component {
                    return Some(seconds);
                } else {
                    return None;
                }
            },
            Some((a, b)) => {
                let ghost w = v@.subrange(a as int, b as int);
                let ghost old_done = done;
                proof {
                    done = done.push(w);
                    assert(done.drop_last() =~= old_done);
                    assert(done.last() == w);
                }
                assert(ascii_words(v@) =~= done + ascii_words_from(v@, b as int));
                let unit = v[b - 1];
                assert(w.last() == unit);
                let multiplier = match unit_multiplier(unit) {
                    Some(m) => m,
                    None => {
                        proof {
                            lemma_seconds_sum_none_extends(done, ascii_words_from(v@, b as int));
                        }
                        return None;
                    },
                };
                let amount_text = slice_chars(value, a, b - 1);
                assert(amount_text@ =~= w.drop_last());
                let amount = match parse_unsigned(amount_text, u32::MAX as u64) {
                    Some(n) => n,
                    None => {
                        proof {
                            lemma_seconds_sum_none_extends(done, ascii_words_from(v@, b as int));
                        }
                        return None;
                    },
                };
                if amount > (u32::MAX as u64) / (multiplier as u64) {
                    proof {
                        assert(amount * multiplier > u32::MAX) by (nonlinear_arith)
                            requires
                                amount > (u32::MAX as u64) / (multiplier as u64),
                                multiplier >= 1,
                        ;
                        lemma_seconds_sum_none_extends(done, ascii_words_from(v@, b as int));
                    }
                    return None;
                }
                proof {
                    assert(amount * multiplier <= u32::MAX) by (nonlinear_arith)
                        requires
                            amount <= (u32::MAX as u64) / (multiplier as u64),
                            multiplier >= 1,
                    ;
                }
                let part = (amount as u32) * multiplier;
                if seconds > u32::MAX - part {
                    proof {
                        lemma_seconds_sum_none_extends(done, ascii_words_from(v@, b as int));
                    }
                    return None;
                }
                seconds = seconds + part;
                saw_component = true;
                i = b;
            },
        }
    }
    proof {
        assert(ascii_words_from(v@, i as int) =~= Seq::<Seq<char>>::empty());
        assert(ascii_words(v@) =~= done);
    }
    if saw_component {
        Some(seconds)
    } else {
        None
    }
}

/// Once a prefix of the components fails, the whole duration fails.
pub proof fn lemma_seconds_sum_none_extends(done: Seq<Seq<char>>, rest: Seq<Seq<char>>)
    requires
        seconds_sum(done) is None,
    ensures
        seconds_sum(done + rest) is None,
    decreases rest.len(),
{
    if rest.len() > 0 {
        let shorter = done + rest.drop_last();
        lemma_seconds_sum_none_extends(done, rest.drop_last());
        assert((done + rest).drop_last() =~= shorter);
    } else {
        assert(done + rest =~= done);
    }
}

/// The `E` values among the words of `v` from `i` on, as strings.
fn e_values_from(v: &Vec<char>, text: &str, i: usize) -> (r: Vec<String>)
    requires
        i <= v@.len(),
        v@ == text@,
    ensures
        strings_view(r@) =~= e_values(ascii_words_from(v@, i as int)),
{
    let mut out: Vec<String> = Vec::new();
    let mut j: usize = i;
    while j < v.len()
        invariant
            i <= j <= v@.len(),
            v@ == text@,
            e_values(ascii_words_from(v@, i as int)) =~= strings_view(out@) + e_values(
                ascii_words_from(v@, j as int),
            ),
        decreases v.len() - j,
    {
        match next_ascii_word(v, j) {
            None => {
                assert(strings_view(out@) + Seq::<Seq<char>>::empty() =~= strings_view(out@));
                return out;
            },
            Some((a, b)) => {
                let ghost w = v@.subrange(a as int, b as int);
                let ghost rest = ascii_words_from(v@, b as int);
                assert((seq![w] + rest).drop_first() =~= rest);
                assert((seq![w] + rest)[0] == w);
                if v[a] == 'E' {
                    let value = slice_chars(text, a + 1, b);
                    let owned = value.to_owned();
                    assert(value@ =~= w.drop_first());
                    assert(starts_with_seq(w, "E"@)) by {
                        reveal_strlit("E");
                        assert(w.take(1) =~= "E"@);
                    }
                    let ghost before = strings_view(out@);
                    out.push(owned);
                    assert(strings_view(out@) =~= before.push(owned@));
                } else {
                    assert(!starts_with_seq(w, "E"@)) by {
                        reveal_strlit("E");
                        assert(w.take(1)[0] == w[0]);
                    }
                }
                j = b;
            },
        }
    }
    proof {
        assert(ascii_words_from(v@, j as int) =~= Seq::<Seq<char>>::empty());
    }
    out
}

/// The first `S<n>` word from `i` on whose `n` is a tool number.
fn s_tool_from(v: &Vec<char>, text: &str, i: usize) -> (r: Option<u8>)
    requires
        i <= v@.len(),
        v@ == text@,
    ensures
        r == first_s_tool(ascii_words_from(v@, i as int)),
{
    let mut j: usize = i;
    while j < v.len()
        invariant
            i <= j <= v@.len(),
            v@ == text@,
            first_s_tool(ascii_words_from(v@, i as int)) == first_s_tool(
                ascii_words_from(v@, j as int),
            ),
        decreases v.len() - j,
    {
        match next_ascii_word(v, j) {
            None => {
                return None;
            },
            Some((a, b)) => {
                let ghost w = v@.subrange(a as int, b as int);
                let ghost rest = ascii_words_from(v@, b as int);
                assert((seq![w] + rest).drop_first() =~= rest);
                assert((seq![w] + rest)[0] == w);
                if v[a] == 'S' {
                    assert(starts_with_seq(w, "S"@)) by {
                        reveal_strlit("S");
                        assert(w.take(1) =~= "S"@);
                    }
                    let value = slice_chars(text, a + 1, b);
                    assert(value@ =~= w.drop_first());
                    if let Some(n) = parse_unsigned(value, 255) {
                        return Some(n as u8);
                    }
                } else {
                    assert(!starts_with_seq(w, "S"@)) by {
                        reveal_strlit("S");
                        assert(w.take(1)[0] == w[0]);
                    }
                }
                j = b;
            },
        }
    }
    None
}

/// The command of a G-code line; see `classify_spec`.
pub fn classify_command(line: &str) -> (r: GcodeCommand)
    ensures
        r.spec_view() == classify_spec(line@),
{
    let command = trim(before_first(line, ";"));
    let v = chars_of(command);
    let (a, b) = match next_ascii_word(&v, 0) {
        Some(bounds) => bounds,
        None => return GcodeCommand::Nothing,
    };
    let ghost ws = ascii_words(v@);
    let ghost ins_seq = v@.subrange(a as int, b as int);
    assert(ws[0] == ins_seq);
    assert(ws.drop_first() =~= ascii_words_from(v@, b as int));
    let ins = slice_chars(command, a, b);
    if str_eq(ins, "M82") {
        return GcodeCommand::AbsoluteExtrusion;
    }
    if str_eq(ins, "M83") {
        return GcodeCommand::RelativeExtrusion;
    }
    proof {
        reveal_strlit("T");
    }
    if let Some(rest) = strip_prefix(ins, "T") {
        assert(rest@ =~= ins_seq.drop_first());
        if let Some(n) = parse_unsigned(rest, 255) {
            return GcodeCommand::SelectTool(n as u8);
        }
    }
    proof {
        reveal_strlit("T");
        if starts_with_seq(ins_seq, "T"@) {
            assert(ins_seq.skip(1) =~= ins_seq.drop_first());
        }
    }
    if str_eq(ins, "M1020") {
        return match s_tool_from(&v, command, b) {
            Some(t) => GcodeCommand::SelectTool(t),
            None => GcodeCommand::Nothing,
        };
    }
    if str_eq(ins, "G92") {
        return GcodeCommand::ResetPosition(e_values_from(&v, command, b));
    }
    if str_eq(ins, "G0") || str_eq(ins, "G1") {
        return GcodeCommand::Extrude(e_values_from(&v, command, b));
    }
    GcodeCommand::Nothing
}

/// The state of a G-code read: the active tool, the extrusion mode, how many
/// layers have been opened, the layer being printed, and the totals the file
/// declares in its comments.
#[derive(Debug, Clone, Copy, PartialEq, Eq)]
pub struct GcodeScan {
    pub current_tool: u8,
    pub absolute_extrusion: bool,
    pub layer_count: u64,
    pub current_layer: Option<u32>,
    pub declared_estimated_seconds: Option<u32>,
    pub declared_total_layers: Option<u32>,
}

/// The number a `CHANGE_LAYER` marker gives the next layer: the count of
/// layers opened so far, as a `u32`.
pub open spec fn next_layer_number(count: u64) -> u32 {
    (count % 0x1_0000_0000) as u32
}

pub open spec fn scan_wf(s: GcodeScan) -> bool {
    &&& s.layer_count <= 0x1_0000_0000
    &&& s.current_layer matches Some(l) ==> l < s.layer_count
}

/// The state after the comment of a line is read.
pub open spec fn after_comment(s: GcodeScan, line: Seq<char>) -> GcodeScan {
    match comment_seq(line) {
        None => s,
        Some(c) => {
            let s1 = match strip_prefix_seq(c, "total estimated time:"@) {
                Some(v) => GcodeScan { declared_estimated_seconds: estimated_seconds_spec(v), ..s },
                None => s,
            };
            match strip_prefix_seq(c, "total layer number:"@) {
                Some(v) => GcodeScan { declared_total_layers: parse_u32_seq(trim_seq(v)), ..s1 },
                None => s1,
            }
        },
    }
}

/// The state after a layer marker: every layer up to the marked one is open,
/// and the marked one is current.
pub open spec fn after_marker(s: GcodeScan, line: Seq<char>) -> GcodeScan {
    match layer_marker_spec(line, next_layer_number(s.layer_count)) {
        Some(l) => GcodeScan {
            layer_count: if s.layer_count > l {
                s.layer_count
            } else {
                (l + 1) as u64
            },
            current_layer: Some(l),
            ..s
        },
        None => s,
    }
}

/// The state after the line's command.
pub open spec fn after_command(s: GcodeScan, c: CommandSpec) -> GcodeScan {
    match c {
        CommandSpec::AbsoluteExtrusion => GcodeScan { absolute_extrusion: true, ..s },
        CommandSpec::RelativeExtrusion => GcodeScan { absolute_extrusion: false, ..s },
        CommandSpec::SelectTool(t) => GcodeScan { current_tool: t, ..s },
        _ => s,
    }
}

pub open spec fn step_spec(s: GcodeScan, line: Seq<char>) -> GcodeScan {
    after_command(after_marker(after_comment(s, line), line), classify_spec(line))
}

/// A read of a whole file, summed up.
#[derive(Debug, Clone, Copy, PartialEq, Eq)]
pub struct GcodeSummary {
    pub max_layer: u32,
    pub declared_estimated_seconds: Option<u32>,
    pub declared_total_layers: Option<u32>,
}

impl GcodeSummary {
    /// The layer count to show: the declared total when it is positive, else
    /// the number of layers the markers opened.
    pub fn display_layer_count(&self) -> (r: u32)
        ensures
            r == (match self.declared_total_layers {
                Some(n) => if n > 0 {
                    n
                } else {
                    self.max_layer
                },
                None => self.max_layer,
            }),
    {
        match self.declared_total_layers {
            Some(n) => if n > 0 {
                n
            } else {
                self.max_layer
            },
            None => self.max_layer,
        }
    }
}

impl GcodeScan {
    /// A read that has seen nothing: tool 0, absolute extrusion, no layers.
    pub fn new() -> (r: Self)
        ensures
            r == (GcodeScan {
                current_tool: 0,
                absolute_extrusion: true,
                layer_count: 0,
                current_layer: None,
                declared_estimated_seconds: None,
                declared_total_layers: None,
            }),
            scan_wf(r),
    {
        GcodeScan {
            current_tool: 0,
            absolute_extrusion: true,
            layer_count: 0,
            current_layer: None,
            declared_estimated_seconds: None,
            declared_total_layers: None,
        }
    }

    /// Reads one line: its declaring comments, then its layer marker, then its
    /// command, which it returns. An extrusion it returns belongs to the tool,
    /// mode and layer of the state after the call.
    pub fn step(&mut self, line: &str) -> (r: GcodeCommand)
        requires
            scan_wf(*old(self)),
        ensures
            scan_wf(*final(self)),
            *final(self) == step_spec(*old(self), line@),
            r.spec_view() == classify_spec(line@),
    {
        if let Some(comment) = comment_of(line) {
            if let Some(value) = strip_prefix(comment, "total estimated time:") {
                self.declared_estimated_seconds = parse_estimated_seconds(value);
            }
            if let Some(value) = strip_prefix(comment, "total layer number:") {
                self.declared_total_layers = parse_u32(trim(value));
            }
        }
        let next = (self.layer_count % 0x1_0000_0000) as u32;
        if let Some(layer) = layer_marker(line, next) {
            if self.layer_count <= layer as u64 {
                self.layer_count = layer as u64 + 1;
            }
            self.current_layer = Some(layer);
        }
        let command = classify_command(line);
        match &command {
            GcodeCommand::AbsoluteExtrusion => {
                self.absolute_extrusion = true;
            },
            GcodeCommand::RelativeExtrusion => {
                self.absolute_extrusion = false;
            },
            GcodeCommand::SelectTool(t) => {
                self.current_tool = *t;
            },
            _ => {},
        }
        command
    }

    /// The summary of the read: as many layers as the markers opened.
    pub fn summary(&self) -> (r: GcodeSummary)
        requires
            scan_wf(*self),
        ensures
            r.max_layer == next_layer_number(self.layer_count),
            r.declared_estimated_seconds == self.declared_estimated_seconds,
            r.declared_total_layers == self.declared_total_layers,
    {
        GcodeSummary {
            max_layer: (self.layer_count % 0x1_0000_0000) as u32,
            declared_estimated_seconds: self.declared_estimated_seconds,
            declared_total_layers: self.declared_total_layers,
        }
    }
}

/// A file that never extrudes is not G-code this library can read.
pub fn require_extrusion(saw_extrusion_command: bool) -> (r: Result<(), AppError>)
    ensures
        r is Ok <==> saw_extrusion_command,
        r matches Err(e) ==> e == AppError::UnknownGcode,
{
    if saw_extrusion_command {
        Ok(())
    } else {
        Err(AppError::UnknownGcode)
    }
}

/// `v` is the value of an argument word that starts with `E`.
pub open spec fn is_e_value_of(ws: Seq<Seq<char>>, v: Seq<char>) -> bool {
    exists|i: int| #![trigger ws[i]] 0 <= i < ws.len() && starts_with_seq(ws[i], "E"@) && ws[i].drop_first() == v
}

/// Every argument word that starts with `E` gives its value, wherever it
/// stands among the arguments, and every value comes from such a word.
pub proof fn lemma_every_e_word_counts(ws: Seq<Seq<char>>)
    ensures
        forall|i: int|
            0 <= i < ws.len() && starts_with_seq(#[trigger] ws[i], "E"@) ==> e_values(ws).contains(
                ws[i].drop_first(),
            ),
        forall|k: int| 0 <= k < e_values(ws).len() ==> is_e_value_of(ws, #[trigger] e_values(ws)[k]),
    decreases ws.len(),
{
    if ws.len() == 0 {
        assert(e_values(ws).len() == 0);
    } else {
        let rest = ws.drop_first();
        lemma_every_e_word_counts(rest);
        let head: Seq<Seq<char>> = if starts_with_seq(ws[0], "E"@) {
            seq![ws[0].drop_first()]
        } else {
            seq![]
        };
        assert(e_values(ws) == head + e_values(rest));
        assert forall|i: int|
            0 <= i < ws.len() && starts_with_seq(#[trigger] ws[i], "E"@) implies e_values(ws).contains(
            ws[i].drop_first(),
        ) by {
            if i == 0 {
                assert(e_values(ws)[0] == ws[0].drop_first());
            } else {
                assert(rest[i - 1] == ws[i]);
                assert(starts_with_seq(rest[i - 1], "E"@));
                let k = choose|k: int|
                    0 <= k < e_values(rest).len() && e_values(rest)[k] == rest[i - 1].drop_first();
                assert(e_values(ws)[head.len() + k] == e_values(rest)[k]);
            }
        }
        assert forall|k: int| 0 <= k < e_values(ws).len() implies is_e_value_of(ws, #[trigger] e_values(ws)[k]) by {
            if k < head.len() {
                assert(starts_with_seq(ws[0], "E"@) && ws[0].drop_first() == e_values(ws)[k]);
            } else {
                let j = k - head.len();
                assert(e_values(ws)[k] == e_values(rest)[j]);
                assert(is_e_value_of(rest, e_values(rest)[j]));
                let i = choose|i: int|
                    #![trigger rest[i]]
                    0 <= i < rest.len() && starts_with_seq(rest[i], "E"@)
                        && rest[i].drop_first() == e_values(rest)[j];
                assert(ws[i + 1] == rest[i]);
                assert(0 <= i + 1 < ws.len() && starts_with_seq(ws[i + 1], "E"@) && ws[i + 1].drop_first()
                    == e_values(ws)[k]);
            }
        }
    }
}

/// A move (`G0`/`G1`) counts the value of each of its `E` words, whatever
/// words come before it: `G1 X10.5 Y20 E0.8` extrudes `0.8`.
pub proof fn lemma_moves_extrude_every_e_word(line: Seq<char>, i: int)
    requires
        ascii_words(trim_seq(before_first_seq(line, ";"@))).len() > 0,
        ascii_words(trim_seq(before_first_seq(line, ";"@)))[0] == "G1"@
            || ascii_words(trim_seq(before_first_seq(line, ";"@)))[0] == "G0"@,
        1 <= i < ascii_words(trim_seq(before_first_seq(line, ";"@))).len(),
        starts_with_seq(ascii_words(trim_seq(before_first_seq(line, ";"@)))[i], "E"@),
    ensures
        classify_spec(line) matches CommandSpec::Extrude(values) && values.contains(
            ascii_words(trim_seq(before_first_seq(line, ";"@)))[i].drop_first(),
        ),
{
    let ws = ascii_words(trim_seq(before_first_seq(line, ";"@)));
    let rest = ws.drop_first();
    reveal_strlit("G1");
    reveal_strlit("G0");
    reveal_strlit("M82");
    reveal_strlit("M83");
    reveal_strlit("M1020");
    reveal_strlit("G92");
    reveal_strlit("T");
    assert(!starts_with_seq(ws[0], "T"@)) by {
        assert(ws[0][0] == 'G');
        assert(ws[0].take(1)[0] == ws[0][0]);
    }
    assert(ws[0] != "M82"@ && ws[0] != "M83"@ && ws[0] != "M1020"@ && ws[0] != "G92"@) by {
        if ws[0] == "G1"@ {
            assert(ws[0].len() == 2);
        } else {
            assert(ws[0].len() == 2);
        }
    }
    lemma_every_e_word_counts(rest);
    assert(rest[i - 1] == ws[i]);
}

} // verus!

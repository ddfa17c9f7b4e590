//! The performance baseline: which figures of a benchmark run are reported, the verdict on them,
//! and the drawing that shows them.
//!
//! Figures that are computed in floating point come in as text, already rounded.
use vstd::prelude::*;
use vstd::string::StrSliceExecFns;

use crate::attrs::str_eq;
use crate::text;

verus! {

/// What was measured, on what and when.
pub struct Metadata {
    pub version: String,
    pub date: String,
    pub platform: String,
    pub cpu: String,
}

/// The color of a latency bar, by how much of the budget is used up.
#[derive(Clone, Copy, Debug, PartialEq, Eq, Structural)]
pub enum BarColor {
    /// Well below the budget.
    Green,
    /// Close to the budget.
    Orange,
    /// Above the budget.
    Red,
}

impl BarColor {
    /// The color as it is written in the drawing.
    pub open spec fn code(self) -> &'static str {
        match self {
            BarColor::Green => "#059669",
            BarColor::Orange => "#ea580c",
            BarColor::Red => "#dc2626",
        }
    }

    /// The color as it is written in the drawing.
    pub fn hex(&self) -> (code: &'static str)
        ensures
            code@ == self.code()@,
    {
        match self {
            BarColor::Green => "#059669",
            BarColor::Orange => "#ea580c",
            BarColor::Red => "#dc2626",
        }
    }
}

/// Whether the CPU budget is kept.
#[derive(Clone, Copy, Debug, PartialEq, Eq, Structural)]
pub enum Verdict {
    /// Nothing has been measured yet.
    Pending,
    /// It is kept.
    Pass,
    /// It is not.
    Fail,
}

impl Verdict {
    /// The verdict in words.
    pub open spec fn text(self) -> &'static str {
        match self {
            Verdict::Pending => "PENDING",
            Verdict::Pass => "PASS",
            Verdict::Fail => "FAIL",
        }
    }

    /// The color of the verdict.
    pub open spec fn color_code(self) -> &'static str {
        match self {
            Verdict::Pending => "#64748b",
            Verdict::Pass => "#059669",
            Verdict::Fail => "#dc2626",
        }
    }

    /// The color behind the verdict.
    pub open spec fn background_code(self) -> &'static str {
        match self {
            Verdict::Pending => "#f1f5f9",
            Verdict::Pass => "#ecfdf5",
            Verdict::Fail => "#fef2f2",
        }
    }

    /// The verdict in words.
    pub fn name(&self) -> (name: &'static str)
        ensures
            name@ == self.text()@,
    {
        match self {
            Verdict::Pending => "PENDING",
            Verdict::Pass => "PASS",
            Verdict::Fail => "FAIL",
        }
    }

    /// The color of the verdict.
    pub fn color(&self) -> (code: &'static str)
        ensures
            code@ == self.color_code()@,
    {
        match self {
            Verdict::Pending => "#64748b",
            Verdict::Pass => "#059669",
            Verdict::Fail => "#dc2626",
        }
    }

    /// The color behind the verdict.
    pub fn background(&self) -> (code: &'static str)
        ensures
            code@ == self.background_code()@,
    {
        match self {
            Verdict::Pending => "#f1f5f9",
            Verdict::Pass => "#ecfdf5",
            Verdict::Fail => "#fef2f2",
        }
    }
}

/// The verdict on a run: pending where every mean is zero, and otherwise by whether the CPU time
/// of all requests together is within the budget.
pub fn verdict(mean_ns: &[u64], within_budget: bool) -> (verdict: Verdict)
    ensures
        verdict == (if forall|i: int| 0 <= i < mean_ns@.len() ==> #[trigger] mean_ns@[i] == 0 {
            Verdict::Pending
        } else if within_budget {
            Verdict::Pass
        } else {
            Verdict::Fail
        }),
{
    let mut i: usize = 0;
    while i < mean_ns.len()
        invariant
            i <= mean_ns@.len(),
            forall|k: int| 0 <= k < i ==> #[trigger] mean_ns@[k] == 0,
        decreases mean_ns@.len() - i,
    {
        if mean_ns[i] != 0 {
            return if within_budget {
                Verdict::Pass
            } else {
                Verdict::Fail
            };
        }
        i += 1;
    }
    Verdict::Pending
}

/// How many endpoints are reported.
pub const ENDPOINTS: usize = 6;

/// The endpoints that are reported, in order.
pub open spec fn endpoint_name(k: int) -> &'static str {
    if k == 0 {
        "ecommerce_catalog_browse"
    } else if k == 1 {
        "ecommerce_search"
    } else if k == 2 {
        "ecommerce_product_detail"
    } else if k == 3 {
        "ecommerce_cart_add"
    } else if k == 4 {
        "ecommerce_checkout"
    } else {
        "ecommerce_health"
    }
}

/// An endpoint that is reported.
pub fn endpoint(k: usize) -> (name: &'static str)
    requires
        k < ENDPOINTS,
    ensures
        name@ == endpoint_name(k as int)@,
{
    if k == 0 {
        "ecommerce_catalog_browse"
    } else if k == 1 {
        "ecommerce_search"
    } else if k == 2 {
        "ecommerce_product_detail"
    } else if k == 3 {
        "ecommerce_cart_add"
    } else if k == 4 {
        "ecommerce_checkout"
    } else {
        "ecommerce_health"
    }
}

/// Where a name first stands among others.
pub open spec fn position(names: Seq<String>, name: Seq<char>) -> Option<nat>
    decreases names.len(),
{
    if names.len() == 0 {
        None
    } else {
        match position(names.drop_last(), name) {
            Some(i) => Some(i),
            None => if names.last()@ == name {
                Some((names.len() - 1) as nat)
            } else {
                None
            },
        }
    }
}

/// Where the first `count` reported endpoints stand among the measured ones; those that were not
/// measured are passed over.
pub open spec fn selected(names: Seq<String>, count: nat) -> Seq<nat>
    decreases count,
{
    if count == 0 {
        seq![]
    } else {
        let before = selected(names, (count - 1) as nat);
        match position(names, endpoint_name(count - 1)@) {
            Some(i) => before.push(i),
            None => before,
        }
    }
}

/// Finds a name among others.
fn find_name(names: &Vec<String>, name: &str) -> (found: Option<usize>)
    ensures
        match found {
            Some(i) => position(names@, name@) == Some(i as nat) && i < names@.len(),
            None => position(names@, name@) is None,
        },
{
    let mut i: usize = 0;
    while i < names.len()
        invariant
            i <= names@.len(),
            position(names@.take(i as int), name@) is None,
        decreases names@.len() - i,
    {
        proof {
            assert(names@.take(i + 1).drop_last() =~= names@.take(i as int));
        }
        if str_eq(names[i].as_str(), name) {
            proof {
                lemma_position_stays(names@, name@, i + 1);
            }
            return Some(i);
        }
        i += 1;
    }
    assert(names@.take(i as int) =~= names@);
    None
}

/// A name that stands in the beginning of a list stands at the same place in all of it.
proof fn lemma_position_stays(names: Seq<String>, name: Seq<char>, count: int)
    requires
        0 <= count <= names.len(),
        position(names.take(count), name) is Some,
    ensures
        position(names, name) == position(names.take(count), name),
    decreases names.len(),
{
    if count < names.len() {
        assert(names.drop_last().take(count) =~= names.take(count));
        lemma_position_stays(names.drop_last(), name, count);
    } else {
        assert(names.take(count) =~= names);
    }
}

/// The places of the reported endpoints among the measured ones, in the order of the report.
pub fn select_entries(names: &Vec<String>) -> (places: Vec<usize>)
    ensures
        Seq::new(places@.len(), |i: int| places@[i] as nat) == selected(names@, 6),
        forall|i: int| 0 <= i < places@.len() ==> #[trigger] places@[i] < names@.len(),
{
    let mut places: Vec<usize> = Vec::new();
    let mut k: usize = 0;
    while k < ENDPOINTS
        invariant
            k <= ENDPOINTS,
            Seq::new(places@.len(), |i: int| places@[i] as nat) =~= selected(names@, k as nat),
            forall|i: int| 0 <= i < places@.len() ==> #[trigger] places@[i] < names@.len(),
        decreases ENDPOINTS - k,
    {
        let ghost before = places@;
        if let Some(place) = find_name(names, endpoint(k)) {
            places.push(place);
            assert(Seq::new(places@.len(), |i: int| places@[i] as nat) =~= Seq::new(
                before.len(),
                |i: int| before[i] as nat,
            ).push(place as nat));
        }
        k += 1;
    }
    places
}

/// The name of an endpoint without the common prefix.
pub open spec fn short_name_of(name: Seq<char>) -> Seq<char> {
    if text::stands_at(name, "ecommerce_"@, 0) {
        name.skip("ecommerce_"@.len() as int)
    } else {
        name
    }
}

/// The name of an endpoint without the common prefix.
pub fn short_name(name: &str) -> (short: &str)
    ensures
        short@ == short_name_of(name@),
{
    let chars = text::chars_of(name);
    let prefix = text::chars_of("ecommerce_");
    if text::has_at(&chars, &prefix, 0) {
        assert(name@.subrange(prefix@.len() as int, name@.len() as int) =~= name@.skip(
            prefix@.len() as int,
        ));
        name.substring_char(prefix.len(), chars.len())
    } else {
        name
    }
}

/// A character as it stands in XML text.
pub open spec fn xml_escaped_char(c: char) -> Seq<char> {
    if c == '&' {
        "&amp;"@
    } else if c == '<' {
        "&lt;"@
    } else if c == '>' {
        "&gt;"@
    } else if c == '"' {
        "&quot;"@
    } else {
        seq![c]
    }
}

/// A text as it stands in XML text.
pub open spec fn xml_escaped(s: Seq<char>) -> Seq<char>
    decreases s.len(),
{
    if s.len() == 0 {
        seq![]
    } else {
        xml_escaped(s.drop_last()) + xml_escaped_char(s.last())
    }
}

/// A text as it stands in XML text.
pub fn xml_escape(s: &str) -> (escaped: String)
    ensures
        escaped@ == xml_escaped(s@),
{
    let chars = text::chars_of(s);
    let mut escaped: String = String::new();
    let mut i: usize = 0;
    while i < chars.len()
        invariant
            i <= chars@.len(),
            chars@ == s@,
            escaped@ == xml_escaped(s@.take(i as int)),
        decreases chars@.len() - i,
    {
        let ghost before = escaped@;
        let c: char = chars[i];
        if c == '&' {
            text::put(&mut escaped, "&amp;");
        } else if c == '<' {
            text::put(&mut escaped, "&lt;");
        } else if c == '>' {
            text::put(&mut escaped, "&gt;");
        } else if c == '"' {
            text::put(&mut escaped, "&quot;");
        } else {
            escaped.push(c);
        }
        assert(escaped@ =~= before + xml_escaped_char(c));
        assert(s@.take(i + 1).drop_last() =~= s@.take(i as int));
        i += 1;
    }
    assert(s@.take(i as int) =~= s@);
    escaped
}

/// How many bytes a description has at most before it is cut.
pub const MAX_DESCRIPTION: usize = 40;

/// How many bytes are left of a description that is cut.
pub const CUT_DESCRIPTION: usize = 37;

/// Whether a description is short, or can be cut between two of its characters.
pub open spec fn can_shorten(description: Seq<char>) -> bool {
    let bytes = vstd::utf8::encode_utf8(description);
    bytes.len() > MAX_DESCRIPTION ==> vstd::utf8::is_char_boundary(bytes, CUT_DESCRIPTION as int)
}

/// A description that fits its column: a long one is cut, and ends in dots.
pub open spec fn shortened(description: Seq<char>) -> Seq<char> {
    let bytes = vstd::utf8::encode_utf8(description);
    if bytes.len() > MAX_DESCRIPTION {
        vstd::utf8::decode_utf8(bytes.take(CUT_DESCRIPTION as int)) + "..."@
    } else {
        description
    }
}

/// Cuts a description so that it fits its column.
pub fn shorten(description: &str) -> (short: String)
    requires
        can_shorten(description@),
    ensures
        short@ == shortened(description@),
{
    if description.as_bytes().len() > MAX_DESCRIPTION {
        let (kept, _rest) = description.split_at(CUT_DESCRIPTION);
        proof {
            let bytes = vstd::utf8::encode_utf8(description@);
            assert(bytes.subrange(0, CUT_DESCRIPTION as int) =~= bytes.take(
                CUT_DESCRIPTION as int,
            ));
            vstd::utf8::encode_utf8_decode_utf8(kept@);
        }
        let mut short: String = kept.to_owned();
        text::put(&mut short, "...");
        short
    } else {
        description.to_owned()
    }
}

/// The end of the line that a place lies in.
pub open spec fn line_end(text: Seq<char>, from: int) -> int
    decreases text.len() - from,
{
    if from < 0 || from >= text.len() || text[from] == '\n' {
        from
    } else {
        line_end(text, from + 1)
    }
}

/// What stands before the value of a key in a TOML file.
pub open spec fn key_prefix(key: Seq<char>) -> Seq<char> {
    key + " = "@
}

/// Whether a file sets a key.
pub open spec fn has_key(toml: Seq<char>, key: Seq<char>) -> bool {
    exists|at: int| text::first_place(toml, key_prefix(key), at)
}

/// Where the value of a key begins.
pub open spec fn value_start(toml: Seq<char>, key: Seq<char>) -> int {
    let at = choose|at: int| text::first_place(toml, key_prefix(key), at);
    at + key_prefix(key).len()
}

/// The value of a key.
pub open spec fn value_of(toml: Seq<char>, key: Seq<char>) -> Seq<char> {
    let start = value_start(toml, key);
    toml.subrange(start, line_end(toml, start))
}

/// A file with the value of a key replaced. A file that does not set the key stays as it is.
pub open spec fn with_value(toml: Seq<char>, key: Seq<char>, value: Seq<char>) -> Seq<char> {
    if has_key(toml, key) {
        let start = value_start(toml, key);
        toml.take(start) + value + toml.skip(line_end(toml, start))
    } else {
        toml
    }
}

/// The end of a line lies between the place and the end of the text.
pub proof fn lemma_line_end(text: Seq<char>, from: int)
    requires
        0 <= from <= text.len(),
    ensures
        from <= line_end(text, from) <= text.len(),
        forall|k: int| from <= k < line_end(text, from) ==> #[trigger] text[k] != '\n',
        line_end(text, from) < text.len() ==> text[line_end(text, from)] == '\n',
    decreases text.len() - from,
{
    if from < text.len() && text[from] != '\n' {
        lemma_line_end(text, from + 1);
    }
}

/// There is only one first place.
pub proof fn lemma_first_place_unique(text: Seq<char>, part: Seq<char>, a: int, b: int)
    requires
        text::first_place(text, part, a),
        text::first_place(text, part, b),
    ensures
        a == b,
{
    if a < b {
        assert(!text::stands_at(text, part, a));
    } else if b < a {
        assert(!text::stands_at(text, part, b));
    }
}

/// Replaces the value of a key in a TOML file, and leaves everything else as it is.
pub fn replace_value(toml: &str, key: &str, value: &str) -> (updated: String)
    ensures
        updated@ == with_value(toml@, key@, value@),
{
    let chars = text::chars_of(toml);
    let len: usize = chars.len();
    let mut prefix_text: String = key.to_owned();
    text::put(&mut prefix_text, " = ");
    let prefix = text::chars_of(prefix_text.as_str());
    match text::find(&chars, &prefix) {
        Some(at) => {
            assert(at + prefix@.len() <= len);
            let start: usize = at + prefix.len();
            proof {
                let found = choose|at: int| text::first_place(toml@, key_prefix(key@), at);
                lemma_first_place_unique(toml@, key_prefix(key@), at as int, found);
                lemma_line_end(toml@, start as int);
            }
            let mut end: usize = start;
            while end < len && chars[end] != '\n'
                invariant
                    chars@ == toml@,
                    len == chars@.len(),
                    start <= end <= chars@.len(),
                    line_end(toml@, end as int) == line_end(toml@, start as int),
                decreases chars@.len() - end,
            {
                end += 1;
            }
            let mut updated: String = String::new();
            text::push_chars(&mut updated, &chars, 0, start);
            text::put(&mut updated, value);
            text::push_chars(&mut updated, &chars, end, len);
            assert(updated@ =~= toml@.take(start as int) + value@ + toml@.skip(end as int));
            updated
        },
        None => {
            assert forall|at: int| !text::first_place(toml@, key_prefix(key@), at) by {
                assert(!text::stands_at(toml@, key_prefix(key@), at));
            }
            toml.to_owned()
        },
    }
}

/// The file with the figures of a run written into it.
pub open spec fn updated_baseline(
    toml: Seq<char>,
    weighted_avg_us: Seq<char>,
    total_cpu_percent: Seq<char>,
    verdict: Verdict,
) -> Seq<char> {
    with_value(
        with_value(
            with_value(toml, "weighted_avg_us"@, weighted_avg_us),
            "total_cpu_percent"@,
            total_cpu_percent,
        ),
        "verdict"@,
        "\""@ + verdict.text()@ + "\""@,
    )
}

/// Writes the figures of a run into the file, which keeps its comments and its layout.
pub fn update_baseline(
    toml: &str,
    weighted_avg_us: &str,
    total_cpu_percent: &str,
    verdict: Verdict,
) -> (updated: String)
    ensures
        updated@ == updated_baseline(toml@, weighted_avg_us@, total_cpu_percent@, verdict),
{
    let mut quoted: String = "\"".to_owned();
    text::put(&mut quoted, verdict.name());
    text::put(&mut quoted, "\"");
    let first = replace_value(toml, "weighted_avg_us", weighted_avg_us);
    let second = replace_value(first.as_str(), "total_cpu_percent", total_cpu_percent);
    replace_value(second.as_str(), "verdict", quoted.as_str())
}

/// A value that was written is the value that is read, as long as it is a single line.
pub proof fn lemma_value_reads_back(toml: Seq<char>, key: Seq<char>, value: Seq<char>)
    requires
        has_key(toml, key),
        forall|k: int| 0 <= k < value.len() ==> #[trigger] value[k] != '\n',
    ensures
        has_key(with_value(toml, key, value), key),
        value_of(with_value(toml, key, value), key) == value,
{
    let prefix = key_prefix(key);
    let at = choose|at: int| text::first_place(toml, prefix, at);
    let start = value_start(toml, key);
    let end = line_end(toml, start);
    lemma_line_end(toml, start);
    let after = with_value(toml, key, value);
    assert forall|k: int| 0 <= k <= at implies #[trigger] text::stands_at(after, prefix, k)
        == text::stands_at(toml, prefix, k) by {
        assert(after.subrange(k, k + prefix.len()) =~= toml.subrange(k, k + prefix.len()));
    }
    assert(text::first_place(after, prefix, at));
    let found = choose|at: int| text::first_place(after, prefix, at);
    lemma_first_place_unique(after, prefix, at, found);
    assert(value_start(after, key) == start);
    lemma_line_end(after, start);
    let new_end = line_end(after, start);
    assert forall|k: int| start <= k < start + value.len() implies after[k] != '\n' by {
        assert(after[k] == value[k - start]);
    }
    if end < toml.len() {
        assert(after[start + value.len()] == toml[end]);
    }
    assert(new_end == start + value.len());
    assert(value_of(after, key) =~= value);
}

/// A row of the table.
pub struct Row {
    /// The endpoint.
    pub name: String,
    /// The mean latency in microseconds, with one decimal.
    pub latency: String,
    /// The share of the traffic in percent, without decimals.
    pub weight: String,
    /// The width of the latency bar.
    pub bar_width: u32,
    /// The color of the latency bar.
    pub color: BarColor,
    /// How many allocations there are, roughly.
    pub allocations: u64,
    /// What the endpoint does.
    pub description: String,
}

/// What stands below the table.
pub struct Summary {
    /// The mean latency over all traffic in microseconds, with two decimals.
    pub weighted_avg: String,
    /// The CPU time in percent, with two decimals.
    pub total_cpu: String,
    /// How many requests there are in a second.
    pub target_rps: u64,
    /// Whether the budget is kept.
    pub verdict: Verdict,
    /// The budget in microseconds, with one decimal.
    pub budget_us: String,
    /// The budget in percent.
    pub budget_percent: String,
    /// How far to the right of the bars' left end the budget lies.
    pub budget_bar: u32,
}

/// The opening of the drawing: its size, styles and card.
pub open spec fn preamble_of(svg: Seq<char>, height: nat) -> Seq<char> {
    svg
        + "<svg viewBox=\"0 0 780 "@
        + text::decimal(height)
        + "\" xmlns=\"http://www.w3.org/2000/svg\">\n"@
        + "  <style>\n"@
        + "    .title { font: bold 18px monospace; fill: #1e293b; }\n"@
        + "    .subtitle { font: 14px system-ui, -apple-system, sans-serif; fill: #64748b; }\n"@
        + "    .col-hdr { font: bold 10px monospace; fill: #64748b; }\n"@
        + "    .cell { font: 12px monospace; fill: #1e293b; }\n"@
        + "    .cell-desc { font: 10px system-ui, -apple-system, sans-serif; fill: #94a3b8; }\n"@
        + "    .summary { font: 12px monospace; fill: #1e293b; }\n"@
        + "    .verdict { font: bold 12px monospace; }\n"@
        + "    .footer { font: 10px system-ui, -apple-system, sans-serif; fill: #94a3b8; }\n"@
        + "  </style>\n"@
        + "  <rect width=\"780\" height=\""@
        + text::decimal(height)
        + "\" fill=\"#fafafa\"/>\n"@
        + "  <rect x=\"16\" y=\"12\" width=\"748\" height=\""@
        + text::decimal((height - 24) as nat)
        + "\" rx=\"8\" fill=\"#ffffff\" stroke=\"#e2e8f0\" stroke-width=\"1\"/>\n"@
        + "  <rect x=\"16\" y=\"12\" width=\"748\" height=\"4\" rx=\"8\" fill=\"#ea580c\"/>\n"@
}

/// Writes the opening of the drawing.
fn put_preamble(svg: &mut String, height: u64)
    requires
        height >= 24,
    ensures
        final(svg)@ == preamble_of(old(svg)@, height as nat),
{
    text::put(svg, "<svg viewBox=\"0 0 780 ");
    text::push_decimal(svg, height);
    text::put(svg, "\" xmlns=\"http://www.w3.org/2000/svg\">\n");
    text::put(svg, "  <style>\n");
    text::put(svg, "    .title { font: bold 18px monospace; fill: #1e293b; }\n");
    text::put(svg, "    .subtitle { font: 14px system-ui, -apple-system, sans-serif; fill: #64748b; }\n");
    text::put(svg, "    .col-hdr { font: bold 10px monospace; fill: #64748b; }\n");
    text::put(svg, "    .cell { font: 12px monospace; fill: #1e293b; }\n");
    text::put(svg, "    .cell-desc { font: 10px system-ui, -apple-system, sans-serif; fill: #94a3b8; }\n");
    text::put(svg, "    .summary { font: 12px monospace; fill: #1e293b; }\n");
    text::put(svg, "    .verdict { font: bold 12px monospace; }\n");
    text::put(svg, "    .footer { font: 10px system-ui, -apple-system, sans-serif; fill: #94a3b8; }\n");
    text::put(svg, "  </style>\n");
    text::put(svg, "  <rect width=\"780\" height=\"");
    text::push_decimal(svg, height);
    text::put(svg, "\" fill=\"#fafafa\"/>\n");
    text::put(svg, "  <rect x=\"16\" y=\"12\" width=\"748\" height=\"");
    text::push_decimal(svg, height - 24);
    text::put(svg, "\" rx=\"8\" fill=\"#ffffff\" stroke=\"#e2e8f0\" stroke-width=\"1\"/>\n");
    text::put(svg, "  <rect x=\"16\" y=\"12\" width=\"748\" height=\"4\" rx=\"8\" fill=\"#ea580c\"/>\n");
}

/// The title: what was measured, on what and when.
pub open spec fn title_of(svg: Seq<char>, metadata: Metadata) -> Seq<char> {
    svg
        + "  <text x=\"390\" y=\"42\" text-anchor=\"middle\" class=\"title\">rolly v"@
        + xml_escaped(metadata.version@)
        + " Performance Baseline</text>\n"@
        + "  <text x=\"390\" y=\"62\" text-anchor=\"middle\" class=\"subtitle\">"@
        + xml_escaped(metadata.platform@)
        + " / "@
        + xml_escaped(metadata.cpu@)
        + " / "@
        + xml_escaped(metadata.date@)
        + "</text>\n"@
        + "  <line x1=\"32\" y1=\"76\" x2=\"748\" y2=\"76\" stroke=\"#e2e8f0\" stroke-width=\"1\"/>\n"@
}

/// Writes the title.
fn put_title(svg: &mut String, metadata: &Metadata)
    ensures
        final(svg)@ == title_of(old(svg)@, *metadata),
{
    text::put(svg, "  <text x=\"390\" y=\"42\" text-anchor=\"middle\" class=\"title\">rolly v");
    text::put(svg, xml_escape(metadata.version.as_str()).as_str());
    text::put(svg, " Performance Baseline</text>\n");
    text::put(svg, "  <text x=\"390\" y=\"62\" text-anchor=\"middle\" class=\"subtitle\">");
    text::put(svg, xml_escape(metadata.platform.as_str()).as_str());
    text::put(svg, " / ");
    text::put(svg, xml_escape(metadata.cpu.as_str()).as_str());
    text::put(svg, " / ");
    text::put(svg, xml_escape(metadata.date.as_str()).as_str());
    text::put(svg, "</text>\n");
    text::put(svg, "  <line x1=\"32\" y1=\"76\" x2=\"748\" y2=\"76\" stroke=\"#e2e8f0\" stroke-width=\"1\"/>\n");
}

/// The headings of the columns.
pub open spec fn headings_of(svg: Seq<char>) -> Seq<char> {
    svg
        + "  <text x=\"36\" y=\"92\" class=\"col-hdr\">ENDPOINT</text>\n"@
        + "  <text x=\"200\" y=\"92\" class=\"col-hdr\">LATENCY (us)</text>\n"@
        + "  <text x=\"400\" y=\"92\" class=\"col-hdr\">WEIGHT</text>\n"@
        + "  <text x=\"460\" y=\"92\" class=\"col-hdr\">ALLOCS</text>\n"@
        + "  <text x=\"520\" y=\"92\" class=\"col-hdr\">DESCRIPTION</text>\n"@
        + "  <line x1=\"32\" y1=\"98\" x2=\"748\" y2=\"98\" stroke=\"#e2e8f0\" stroke-width=\"0.5\"/>\n"@
}

/// Writes the headings of the columns.
fn put_headings(svg: &mut String)
    ensures
        final(svg)@ == headings_of(old(svg)@),
{
    text::put(svg, "  <text x=\"36\" y=\"92\" class=\"col-hdr\">ENDPOINT</text>\n");
    text::put(svg, "  <text x=\"200\" y=\"92\" class=\"col-hdr\">LATENCY (us)</text>\n");
    text::put(svg, "  <text x=\"400\" y=\"92\" class=\"col-hdr\">WEIGHT</text>\n");
    text::put(svg, "  <text x=\"460\" y=\"92\" class=\"col-hdr\">ALLOCS</text>\n");
    text::put(svg, "  <text x=\"520\" y=\"92\" class=\"col-hdr\">DESCRIPTION</text>\n");
    text::put(svg, "  <line x1=\"32\" y1=\"98\" x2=\"748\" y2=\"98\" stroke=\"#e2e8f0\" stroke-width=\"0.5\"/>\n");
}

/// The background of every other row.
pub open spec fn stripe_of(svg: Seq<char>, y: nat) -> Seq<char> {
    svg
        + "  <rect x=\"32\" y=\""@
        + text::decimal(y)
        + "\" width=\"716\" height=\"32\" fill=\"#f8fafc\"/>\n"@
}

/// Writes the background of a row.
fn put_stripe(svg: &mut String, y: u64)
    ensures
        final(svg)@ == stripe_of(old(svg)@, y as nat),
{
    text::put(svg, "  <rect x=\"32\" y=\"");
    text::push_decimal(svg, y);
    text::put(svg, "\" width=\"716\" height=\"32\" fill=\"#f8fafc\"/>\n");
}

/// The cells of a row.
pub open spec fn cells_of(svg: Seq<char>, y: nat, row: Row) -> Seq<char> {
    svg
        + "  <text x=\"36\" y=\""@
        + text::decimal(y + 14)
        + "\" class=\"cell\">"@
        + xml_escaped(short_name_of(row.name@))
        + "</text>\n"@
        + "  <rect x=\"200\" y=\""@
        + text::decimal(y + 4)
        + "\" width=\""@
        + text::decimal(row.bar_width as nat)
        + "\" height=\"14\" rx=\"2\" fill=\""@
        + row.color.code()@
        + "\" opacity=\"0.8\"/>\n"@
        + "  <text x=\""@
        + text::decimal(204 + row.bar_width as nat)
        + "\" y=\""@
        + text::decimal(y + 14)
        + "\" class=\"cell\">"@
        + row.latency@
        + "</text>\n"@
        + "  <text x=\"400\" y=\""@
        + text::decimal(y + 14)
        + "\" class=\"cell\">"@
        + row.weight@
        + "%</text>\n"@
        + "  <text x=\"460\" y=\""@
        + text::decimal(y + 14)
        + "\" class=\"cell\">"@
        + text::decimal(row.allocations as nat)
        + "</text>\n"@
        + "  <text x=\"520\" y=\""@
        + text::decimal(y + 25)
        + "\" class=\"cell-desc\">"@
        + xml_escaped(shortened(row.description@))
        + "</text>\n"@
        + "  <line x1=\"32\" y1=\""@
        + text::decimal(y + 32)
        + "\" x2=\"748\" y2=\""@
        + text::decimal(y + 32)
        + "\" stroke=\"#e2e8f0\" stroke-width=\"0.5\"/>\n"@
}

/// Writes the cells of a row.
fn put_cells(svg: &mut String, y: u64, row: &Row)
    requires
        y <= u32::MAX,
        can_shorten(row.description@),
    ensures
        final(svg)@ == cells_of(old(svg)@, y as nat, *row),
{
    text::put(svg, "  <text x=\"36\" y=\"");
    text::push_decimal(svg, y + 14);
    text::put(svg, "\" class=\"cell\">");
    text::put(svg, xml_escape(short_name(row.name.as_str())).as_str());
    text::put(svg, "</text>\n");
    text::put(svg, "  <rect x=\"200\" y=\"");
    text::push_decimal(svg, y + 4);
    text::put(svg, "\" width=\"");
    text::push_decimal(svg, row.bar_width as u64);
    text::put(svg, "\" height=\"14\" rx=\"2\" fill=\"");
    text::put(svg, row.color.hex());
    text::put(svg, "\" opacity=\"0.8\"/>\n");
    text::put(svg, "  <text x=\"");
    text::push_decimal(svg, 204 + row.bar_width as u64);
    text::put(svg, "\" y=\"");
    text::push_decimal(svg, y + 14);
    text::put(svg, "\" class=\"cell\">");
    text::put(svg, row.latency.as_str());
    text::put(svg, "</text>\n");
    text::put(svg, "  <text x=\"400\" y=\"");
    text::push_decimal(svg, y + 14);
    text::put(svg, "\" class=\"cell\">");
    text::put(svg, row.weight.as_str());
    text::put(svg, "%</text>\n");
    text::put(svg, "  <text x=\"460\" y=\"");
    text::push_decimal(svg, y + 14);
    text::put(svg, "\" class=\"cell\">");
    text::push_decimal(svg, row.allocations);
    text::put(svg, "</text>\n");
    text::put(svg, "  <text x=\"520\" y=\"");
    text::push_decimal(svg, y + 25);
    text::put(svg, "\" class=\"cell-desc\">");
    text::put(svg, xml_escape(shorten(row.description.as_str()).as_str()).as_str());
    text::put(svg, "</text>\n");
    text::put(svg, "  <line x1=\"32\" y1=\"");
    text::push_decimal(svg, y + 32);
    text::put(svg, "\" x2=\"748\" y2=\"");
    text::push_decimal(svg, y + 32);
    text::put(svg, "\" stroke=\"#e2e8f0\" stroke-width=\"0.5\"/>\n");
}

/// The line that marks the budget among the bars.
pub open spec fn budget_of(svg: Seq<char>, bottom: nat, summary: Summary) -> Seq<char> {
    svg
        + "  <line x1=\""@
        + text::decimal(200 + summary.budget_bar as nat)
        + "\" y1=\"136\" x2=\""@
        + text::decimal(200 + summary.budget_bar as nat)
        + "\" y2=\""@
        + text::decimal(bottom)
        + "\" stroke=\"#dc2626\" stroke-width=\"1\" stroke-dasharray=\"4,2\"/>\n"@
}

/// Writes the line that marks the budget.
fn put_budget(svg: &mut String, bottom: u64, summary: &Summary)
    ensures
        final(svg)@ == budget_of(old(svg)@, bottom as nat, *summary),
{
    text::put(svg, "  <line x1=\"");
    text::push_decimal(svg, 200 + summary.budget_bar as u64);
    text::put(svg, "\" y1=\"136\" x2=\"");
    text::push_decimal(svg, 200 + summary.budget_bar as u64);
    text::put(svg, "\" y2=\"");
    text::push_decimal(svg, bottom);
    text::put(svg, "\" stroke=\"#dc2626\" stroke-width=\"1\" stroke-dasharray=\"4,2\"/>\n");
}

/// The summary below the table.
pub open spec fn summary_of(svg: Seq<char>, bottom: nat, summary: Summary) -> Seq<char> {
    svg
        + "  <line x1=\"32\" y1=\""@
        + text::decimal(bottom + 12)
        + "\" x2=\"748\" y2=\""@
        + text::decimal(bottom + 12)
        + "\" stroke=\"#e2e8f0\" stroke-width=\"1\"/>\n"@
        + "  <text x=\"36\" y=\""@
        + text::decimal(bottom + 30)
        + "\" class=\"summary\">Weighted avg: "@
        + summary.weighted_avg@
        + " us/req</text>\n"@
        + "  <text x=\"250\" y=\""@
        + text::decimal(bottom + 30)
        + "\" class=\"summary\">CPU at "@
        + text::decimal(summary.target_rps as nat)
        + " req/s: "@
        + summary.total_cpu@
        + "%</text>\n"@
        + "  <rect x=\"500\" y=\""@
        + text::decimal(bottom + 20)
        + "\" width=\"70\" height=\"20\" rx=\"10\" fill=\""@
        + summary.verdict.background_code()@
        + "\" stroke=\""@
        + summary.verdict.color_code()@
        + "\" stroke-width=\"1\"/>\n"@
        + "  <text x=\"535\" y=\""@
        + text::decimal(bottom + 34)
        + "\" text-anchor=\"middle\" class=\"verdict\" fill=\""@
        + summary.verdict.color_code()@
        + "\">"@
        + summary.verdict.text()@
        + "</text>\n"@
}

/// Writes the summary.
fn put_summary(svg: &mut String, bottom: u64, summary: &Summary)
    requires
        bottom <= u32::MAX,
    ensures
        final(svg)@ == summary_of(old(svg)@, bottom as nat, *summary),
{
    text::put(svg, "  <line x1=\"32\" y1=\"");
    text::push_decimal(svg, bottom + 12);
    text::put(svg, "\" x2=\"748\" y2=\"");
    text::push_decimal(svg, bottom + 12);
    text::put(svg, "\" stroke=\"#e2e8f0\" stroke-width=\"1\"/>\n");
    text::put(svg, "  <text x=\"36\" y=\"");
    text::push_decimal(svg, bottom + 30);
    text::put(svg, "\" class=\"summary\">Weighted avg: ");
    text::put(svg, summary.weighted_avg.as_str());
    text::put(svg, " us/req</text>\n");
    text::put(svg, "  <text x=\"250\" y=\"");
    text::push_decimal(svg, bottom + 30);
    text::put(svg, "\" class=\"summary\">CPU at ");
    text::push_decimal(svg, summary.target_rps);
    text::put(svg, " req/s: ");
    text::put(svg, summary.total_cpu.as_str());
    text::put(svg, "%</text>\n");
    text::put(svg, "  <rect x=\"500\" y=\"");
    text::push_decimal(svg, bottom + 20);
    text::put(svg, "\" width=\"70\" height=\"20\" rx=\"10\" fill=\"");
    text::put(svg, summary.verdict.background());
    text::put(svg, "\" stroke=\"");
    text::put(svg, summary.verdict.color());
    text::put(svg, "\" stroke-width=\"1\"/>\n");
    text::put(svg, "  <text x=\"535\" y=\"");
    text::push_decimal(svg, bottom + 34);
    text::put(svg, "\" text-anchor=\"middle\" class=\"verdict\" fill=\"");
    text::put(svg, summary.verdict.color());
    text::put(svg, "\">");
    text::put(svg, summary.verdict.name());
    text::put(svg, "</text>\n");
}

/// The footer.
pub open spec fn footer_of(svg: Seq<char>, bottom: nat, summary: Summary) -> Seq<char> {
    svg
        + "  <text x=\"390\" y=\""@
        + text::decimal(bottom + 76)
        + "\" text-anchor=\"middle\" class=\"footer\">Budget: "@
        + summary.budget_us@
        + " us/req ("@
        + summary.budget_percent@
        + "% CPU at "@
        + text::decimal(summary.target_rps as nat)
        + " req/s)</text>\n"@
        + "  <text x=\"390\" y=\""@
        + text::decimal(bottom + 92)
        + "\" text-anchor=\"middle\" class=\"footer\">rolly &#x2014; github.com/l1x/rolly</text>\n"@
        + "</svg>\n"@
}

/// Writes the footer.
fn put_footer(svg: &mut String, bottom: u64, summary: &Summary)
    requires
        bottom <= u32::MAX,
    ensures
        final(svg)@ == footer_of(old(svg)@, bottom as nat, *summary),
{
    text::put(svg, "  <text x=\"390\" y=\"");
    text::push_decimal(svg, bottom + 76);
    text::put(svg, "\" text-anchor=\"middle\" class=\"footer\">Budget: ");
    text::put(svg, summary.budget_us.as_str());
    text::put(svg, " us/req (");
    text::put(svg, summary.budget_percent.as_str());
    text::put(svg, "% CPU at ");
    text::push_decimal(svg, summary.target_rps);
    text::put(svg, " req/s)</text>\n");
    text::put(svg, "  <text x=\"390\" y=\"");
    text::push_decimal(svg, bottom + 92);
    text::put(svg, "\" text-anchor=\"middle\" class=\"footer\">rolly &#x2014; github.com/l1x/rolly</text>\n");
    text::put(svg, "</svg>\n");
}

/// A row: every other one has a background.
pub open spec fn row_of(svg: Seq<char>, i: nat, row: Row) -> Seq<char> {
    let y = 136 + 32 * i;
    if i % 2 == 0 {
        cells_of(stripe_of(svg, y), y, row)
    } else {
        cells_of(svg, y, row)
    }
}

/// The rows of the table, one below the other.
pub open spec fn rows_of(svg: Seq<char>, rows: Seq<Row>) -> Seq<char>
    decreases rows.len(),
{
    if rows.len() == 0 {
        svg
    } else {
        row_of(rows_of(svg, rows.drop_last()), (rows.len() - 1) as nat, rows.last())
    }
}

/// The lower end of the table.
pub open spec fn table_bottom(rows: nat) -> nat {
    136 + 32 * rows
}

/// The drawing.
pub open spec fn rendered(metadata: Metadata, rows: Seq<Row>, summary: Summary) -> Seq<char> {
    let bottom = table_bottom(rows.len());
    let top = headings_of(title_of(preamble_of(seq![], bottom + 106), metadata));
    footer_of(
        summary_of(budget_of(rows_of(top, rows), bottom, summary), bottom, summary),
        bottom,
        summary,
    )
}

/// Draws the baseline as SVG: a table with a row and a latency bar for each endpoint, a line
/// that marks the budget, and a summary.
pub fn render_svg(metadata: &Metadata, rows: &Vec<Row>, summary: &Summary) -> (svg: String)
    requires
        table_bottom(rows@.len()) + 106 <= u32::MAX,
        forall|i: int| 0 <= i < rows@.len() ==> can_shorten((#[trigger] rows@[i]).description@),
    ensures
        svg@ == rendered(*metadata, rows@, *summary),
{
    let bottom: u64 = 136 + 32 * rows.len() as u64;
    let mut svg: String = String::new();
    assert(svg@ =~= seq![]);
    put_preamble(&mut svg, bottom + 106);
    put_title(&mut svg, metadata);
    put_headings(&mut svg);
    let ghost top = svg@;
    let mut i: usize = 0;
    while i < rows.len()
        invariant
            i <= rows@.len(),
            table_bottom(rows@.len()) + 106 <= u32::MAX,
            forall|k: int|
                0 <= k < rows@.len() ==> can_shorten((#[trigger] rows@[k]).description@),
            svg@ == rows_of(top, rows@.take(i as int)),
        decreases rows@.len() - i,
    {
        let y: u64 = 136 + 32 * i as u64;
        if i % 2 == 0 {
            put_stripe(&mut svg, y);
        }
        put_cells(&mut svg, y, &rows[i]);
        assert(rows@.take(i + 1).drop_last() =~= rows@.take(i as int));
        i += 1;
    }
    assert(rows@.take(i as int) =~= rows@);
    put_budget(&mut svg, bottom, summary);
    put_summary(&mut svg, bottom, summary);
    put_footer(&mut svg, bottom, summary);
    svg
}

/// Escaped text holds no markup: no `<`, `>` or quote is left in it.
pub proof fn lemma_escaped_is_no_markup(s: Seq<char>)
    ensures
        forall|i: int|
            0 <= i < xml_escaped(s).len() ==> (#[trigger] xml_escaped(s)[i]) != '<' && xml_escaped(
                s,
            )[i] != '>' && xml_escaped(s)[i] != '"',
    decreases s.len(),
{
    reveal_strlit("&amp;");
    reveal_strlit("&lt;");
    reveal_strlit("&gt;");
    reveal_strlit("&quot;");
    if s.len() > 0 {
        lemma_escaped_is_no_markup(s.drop_last());
        let rest = xml_escaped(s.drop_last());
        let last = xml_escaped_char(s.last());
        assert forall|i: int| 0 <= i < xml_escaped(s).len() implies (#[trigger] xml_escaped(s)[i])
            != '<' && xml_escaped(s)[i] != '>' && xml_escaped(s)[i] != '"' by {
            if i < rest.len() {
                assert(xml_escaped(s)[i] == rest[i]);
            } else {
                assert(xml_escaped(s)[i] == last[i - rest.len()]);
            }
        }
    }
}

} // verus!

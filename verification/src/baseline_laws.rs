//! What the performance baseline shows, said of the texts themselves.
use vstd::prelude::*;

use crate::baseline;
use crate::baseline::{BarColor, Metadata, Row, Summary, Verdict};
use crate::text;

verus! {

/// The colors and words of the drawing.
pub proof fn lemma_colors_and_words()
    ensures
        BarColor::Green.code()@ == "#059669"@,
        BarColor::Orange.code()@ == "#ea580c"@,
        BarColor::Red.code()@ == "#dc2626"@,
        Verdict::Pending.text()@ == "PENDING"@,
        Verdict::Pass.text()@ == "PASS"@,
        Verdict::Fail.text()@ == "FAIL"@,
        Verdict::Pending.color_code()@ == "#64748b"@,
        Verdict::Pass.color_code()@ == "#059669"@,
        Verdict::Fail.color_code()@ == "#dc2626"@,
        Verdict::Pending.background_code()@ == "#f1f5f9"@,
        Verdict::Pass.background_code()@ == "#ecfdf5"@,
        Verdict::Fail.background_code()@ == "#fef2f2"@,
{
}

/// The endpoints that are reported.
pub proof fn lemma_endpoints()
    ensures
        baseline::endpoint_name(0)@ == "ecommerce_catalog_browse"@,
        baseline::endpoint_name(1)@ == "ecommerce_search"@,
        baseline::endpoint_name(2)@ == "ecommerce_product_detail"@,
        baseline::endpoint_name(3)@ == "ecommerce_cart_add"@,
        baseline::endpoint_name(4)@ == "ecommerce_checkout"@,
        baseline::endpoint_name(5)@ == "ecommerce_health"@,
{
}

/// Whether a place is the first at which a name stands among others.
pub open spec fn first_of(names: Seq<String>, name: Seq<char>, i: int) -> bool {
    &&& 0 <= i < names.len()
    &&& names[i]@ == name
    &&& forall|k: int| 0 <= k < i ==> (#[trigger] names[k])@ != name
}

/// A name that is found stands at the place, and nowhere before it; one that is not found stands
/// nowhere.
proof fn lemma_position(names: Seq<String>, name: Seq<char>)
    ensures
        match baseline::position(names, name) {
            Some(i) => first_of(names, name, i as int),
            None => forall|k: int| 0 <= k < names.len() ==> (#[trigger] names[k])@ != name,
        },
    decreases names.len(),
{
    if names.len() > 0 {
        lemma_position(names.drop_last(), name);
        assert forall|k: int| 0 <= k < names.len() - 1 implies #[trigger] names[k]
            == names.drop_last()[k] by {}
    }
}

/// An endpoint that was measured is reported, after those that come before it in the report, by
/// the first of its measurements. One that was not measured is passed over.
pub proof fn lemma_endpoint_is_selected(names: Seq<String>, k: nat, i: int)
    requires
        k < 6,
    ensures
        baseline::selected(names, 0).len() == 0,
        first_of(names, baseline::endpoint_name(k as int)@, i) ==> baseline::selected(names, k + 1)
            == baseline::selected(names, k).push(i as nat),
        (forall|m: int|
            0 <= m < names.len() ==> (#[trigger] names[m])@ != baseline::endpoint_name(k as int)@)
            ==> baseline::selected(names, k + 1) == baseline::selected(names, k),
{
    let name = baseline::endpoint_name(k as int)@;
    lemma_position(names, name);
    if first_of(names, name, i) {
        let found = baseline::position(names, name);
        assert(found is Some);
        let at = found->0 as int;
        if at < i {
            assert(names[at]@ != name);
        } else if i < at {
            assert(names[i]@ != name);
        }
    }
}

/// Where every endpoint was measured, there are six rows, each for the endpoint whose turn it is.
pub proof fn lemma_all_endpoints_are_selected(names: Seq<String>, count: nat)
    requires
        count <= 6,
        forall|k: int|
            0 <= k < 6 ==> exists|i: int|
                0 <= i < names.len() && (#[trigger] names[i])@ == #[trigger] baseline::endpoint_name(
                    k,
                )@,
    ensures
        baseline::selected(names, count).len() == count,
        forall|k: int|
            0 <= k < count ==> first_of(
                names,
                baseline::endpoint_name(k)@,
                #[trigger] baseline::selected(names, count)[k] as int,
            ),
    decreases count,
{
    if count > 0 {
        let k = (count - 1) as nat;
        let name = baseline::endpoint_name(k as int)@;
        lemma_all_endpoints_are_selected(names, k);
        lemma_position(names, name);
        let i = choose|i: int| 0 <= i < names.len() && (#[trigger] names[i])@ == name;
        assert(names[i]@ == name);
        let found = baseline::position(names, name);
        assert(found is Some);
        let at = found->0;
        assert(baseline::selected(names, count) == baseline::selected(names, k).push(at));
        assert forall|j: int| 0 <= j < count implies first_of(
            names,
            baseline::endpoint_name(j)@,
            #[trigger] baseline::selected(names, count)[j] as int,
        ) by {
            if j < k {
                assert(baseline::selected(names, count)[j] == baseline::selected(names, k)[j]);
            }
        }
    }
}

/// The common prefix is taken off a name that has it; another name stays.
pub proof fn lemma_short_name(name: Seq<char>, rest: Seq<char>)
    ensures
        name == "ecommerce_"@ + rest ==> baseline::short_name_of(name) == rest,
        name.len() < 10 || name.take(10) != "ecommerce_"@ ==> baseline::short_name_of(name)
            == name,
{
    reveal_strlit("ecommerce_");
    let prefix = "ecommerce_"@;
    assert(prefix.len() == 10);
    if name == prefix + rest {
        assert(name.subrange(0, 10) =~= prefix);
        assert(name.skip(10) =~= rest);
    }
    if name.len() >= 10 {
        assert(name.subrange(0, 10) =~= name.take(10));
    }
}

/// Escaping goes character by character: `&`, `<`, `>` and the double quote are written as
/// entities, and every other character as it is.
pub proof fn lemma_escaped(a: Seq<char>, b: Seq<char>, c: char)
    ensures
        baseline::xml_escaped(a + b) == baseline::xml_escaped(a) + baseline::xml_escaped(b),
        baseline::xml_escaped(seq![]) == Seq::<char>::empty(),
        baseline::xml_escaped(seq!['&']) == "&amp;"@,
        baseline::xml_escaped(seq!['<']) == "&lt;"@,
        baseline::xml_escaped(seq!['>']) == "&gt;"@,
        baseline::xml_escaped(seq!['"']) == "&quot;"@,
        c != '&' && c != '<' && c != '>' && c != '"' ==> baseline::xml_escaped(seq![c]) == seq![c],
    decreases b.len(),
{
    lemma_escaped_one('&');
    lemma_escaped_one('<');
    lemma_escaped_one('>');
    lemma_escaped_one('"');
    lemma_escaped_one(c);
    if b.len() == 0 {
        assert(a + b =~= a);
        assert(baseline::xml_escaped(a) + baseline::xml_escaped(b) =~= baseline::xml_escaped(a));
    } else {
        lemma_escaped(a, b.drop_last(), c);
        assert((a + b).drop_last() =~= a + b.drop_last());
        assert((baseline::xml_escaped(a) + baseline::xml_escaped(b.drop_last()))
            + baseline::xml_escaped_char(b.last()) =~= baseline::xml_escaped(a)
            + baseline::xml_escaped(b));
    }
}

proof fn lemma_escaped_one(c: char)
    ensures
        baseline::xml_escaped(seq![c]) == baseline::xml_escaped_char(c),
{
    let one = seq![c];
    assert(one.drop_last() =~= seq![]);
    assert(one.last() == c);
    assert(baseline::xml_escaped(one.drop_last()) =~= seq![]);
    assert(baseline::xml_escaped(one) =~= baseline::xml_escaped_char(c));
}

/// A description of up to 40 bytes stays. Of a longer one the first 37 bytes are kept, and three
/// dots follow.
pub proof fn lemma_shortened(description: Seq<char>, kept: Seq<char>, rest: Seq<char>)
    ensures
        vstd::utf8::encode_utf8(description).len() <= 40 ==> baseline::shortened(description)
            == description,
        description == kept + rest && vstd::utf8::encode_utf8(kept).len() == 37
            && vstd::utf8::encode_utf8(description).len() > 40 ==> baseline::shortened(description)
            == kept + "..."@,
{
    if description == kept + rest && vstd::utf8::encode_utf8(kept).len() == 37 {
        lemma_utf8_of_both(kept, rest);
        vstd::utf8::encode_utf8_decode_utf8(kept);
        assert(vstd::utf8::encode_utf8(description).take(37) =~= vstd::utf8::encode_utf8(kept));
    }
}

/// The bytes of two texts one after the other.
proof fn lemma_utf8_of_both(a: Seq<char>, b: Seq<char>)
    ensures
        vstd::utf8::encode_utf8(a + b) == vstd::utf8::encode_utf8(a) + vstd::utf8::encode_utf8(b),
    decreases a.len(),
{
    if a.len() == 0 {
        assert(a + b =~= b);
        assert(vstd::utf8::encode_utf8(a) + vstd::utf8::encode_utf8(b)
            =~= vstd::utf8::encode_utf8(b));
    } else {
        lemma_utf8_of_both(a.drop_first(), b);
        assert((a + b).drop_first() =~= a.drop_first() + b);
        assert(vstd::utf8::encode_scalar(a[0] as u32) + (vstd::utf8::encode_utf8(a.drop_first())
            + vstd::utf8::encode_utf8(b)) =~= vstd::utf8::encode_utf8(a)
            + vstd::utf8::encode_utf8(b));
    }
}

/// Whether a text is cut by a line break or ends.
pub open spec fn line_is_over(text: Seq<char>) -> bool {
    text.len() == 0 || text[0] == '\n'
}

/// Whether a text is a single line.
pub open spec fn one_line(text: Seq<char>) -> bool {
    forall|k: int| 0 <= k < text.len() ==> #[trigger] text[k] != '\n'
}

/// The first line that sets a key gets the new value, and everything before and after it stays as
/// it is. A file without the key stays as it is altogether.
pub proof fn lemma_value_is_replaced(
    head: Seq<char>,
    key: Seq<char>,
    before: Seq<char>,
    tail: Seq<char>,
    value: Seq<char>,
)
    requires
        one_line(before),
        line_is_over(tail),
        forall|at: int|
            0 <= at < head.len() ==> !#[trigger] text::stands_at(
                head + (key + " = "@) + before + tail,
                key + " = "@,
                at,
            ),
    ensures
        baseline::with_value(head + (key + " = "@) + before + tail, key, value) == head + (key
            + " = "@) + value + tail,
{
    let prefix = key + " = "@;
    let toml = head + prefix + before + tail;
    let place = head.len() as int;
    assert(toml.subrange(place, place + prefix.len()) =~= prefix);
    assert(text::stands_at(toml, prefix, place));
    assert(text::first_place(toml, prefix, place));
    let found = choose|at: int| text::first_place(toml, prefix, at);
    baseline::lemma_first_place_unique(toml, prefix, place, found);
    let start = place + prefix.len();
    assert(baseline::value_start(toml, key) == start);
    baseline::lemma_line_end(toml, start);
    let end = baseline::line_end(toml, start);
    assert forall|k: int| start <= k < start + before.len() implies #[trigger] toml[k] != '\n' by {
        assert(toml[k] == before[k - start]);
    }
    if tail.len() > 0 {
        assert(toml[start + before.len()] == tail[0]);
    }
    assert(end == start + before.len());
    assert(toml.take(start) =~= head + prefix);
    assert(toml.skip(end) =~= tail);
}

/// A file that does not set a key stays as it is.
pub proof fn lemma_absent_key_changes_nothing(toml: Seq<char>, key: Seq<char>, value: Seq<char>)
    requires
        forall|at: int| !#[trigger] text::stands_at(toml, key + " = "@, at),
    ensures
        baseline::with_value(toml, key, value) == toml,
{
}

/// The first figure, the second and the verdict, in quotes, are written into the lines that set
/// them, and the rest of the file stays as it is.
pub proof fn lemma_baseline_is_updated(
    a: Seq<char>,
    average: Seq<char>,
    b: Seq<char>,
    percent: Seq<char>,
    c: Seq<char>,
    quoted: Seq<char>,
    d: Seq<char>,
    new_average: Seq<char>,
    new_percent: Seq<char>,
    verdict: Verdict,
)
    requires
        one_line(average),
        line_is_over(b),
        one_line(percent),
        line_is_over(c),
        one_line(quoted),
        line_is_over(d),
        b.len() > 0,
        c.len() > 0,
        ({
            let first = "weighted_avg_us"@ + " = "@;
            let second = "total_cpu_percent"@ + " = "@;
            let third = "verdict"@ + " = "@;
            let rest = c + third + quoted + d;
            let from = b + second + percent + rest;
            let toml = a + first + average + from;
            let head = a + first + new_average + b;
            let mid = head + second + new_percent + c;
            &&& forall|at: int| 0 <= at < a.len() ==> !#[trigger] text::stands_at(toml, first, at)
            &&& forall|at: int|
                0 <= at < head.len() ==> !#[trigger] text::stands_at(
                    head + second + percent + rest,
                    second,
                    at,
                )
            &&& forall|at: int|
                0 <= at < mid.len() ==> !#[trigger] text::stands_at(
                    mid + third + quoted + d,
                    third,
                    at,
                )
        }),
    ensures
        ({
            let word = match verdict {
                Verdict::Pending => "PENDING"@,
                Verdict::Pass => "PASS"@,
                Verdict::Fail => "FAIL"@,
            };
            baseline::updated_baseline(
                a + ("weighted_avg_us"@ + " = "@) + average + (b + ("total_cpu_percent"@ + " = "@)
                    + percent + (c + ("verdict"@ + " = "@) + quoted + d)),
                new_average,
                new_percent,
                verdict,
            ) == a + ("weighted_avg_us"@ + " = "@) + new_average + b + ("total_cpu_percent"@
                + " = "@) + new_percent + c + ("verdict"@ + " = "@) + ("\""@ + word + "\""@) + d
        }),
{
    let first = "weighted_avg_us"@ + " = "@;
    let second = "total_cpu_percent"@ + " = "@;
    let third = "verdict"@ + " = "@;
    let rest = c + third + quoted + d;
    let from = b + second + percent + rest;
    let toml = a + first + average + from;
    let head = a + first + new_average + b;
    let mid = head + second + new_percent + c;
    assert(from[0] == b[0]);
    assert(rest[0] == c[0]);
    lemma_value_is_replaced(a, "weighted_avg_us"@, average, from, new_average);
    assert(a + first + new_average + from =~= head + second + percent + rest);
    lemma_value_is_replaced(head, "total_cpu_percent"@, percent, rest, new_percent);
    assert(head + second + new_percent + rest =~= mid + third + quoted + d);
    lemma_value_is_replaced(mid, "verdict"@, quoted, d, "\""@ + verdict.text()@ + "\""@);
}

/// Whether a drawing holds a text.
pub open spec fn drawn(svg: Seq<char>, part: Seq<char>) -> bool {
    exists|at: int| text::stands_at(svg, part, at)
}

/// What was appended is drawn.
proof fn lemma_drawn(svg: Seq<char>, part: Seq<char>)
    ensures
        drawn(svg + part, part),
{
    assert((svg + part).subrange(svg.len() as int, svg.len() as int + part.len()) =~= part);
    assert(text::stands_at(svg + part, part, svg.len() as int));
}

/// What is drawn stays when more is appended.
proof fn lemma_drawn_stays(svg: Seq<char>, more: Seq<char>)
    ensures
        forall|part: Seq<char>| #[trigger] drawn(svg, part) ==> drawn(svg + more, part),
{
    assert forall|part: Seq<char>| #[trigger] drawn(svg, part) implies drawn(svg + more, part) by {
        let at = choose|at: int| text::stands_at(svg, part, at);
        assert((svg + more).subrange(at, at + part.len()) =~= svg.subrange(at, at + part.len()));
        assert(text::stands_at(svg + more, part, at));
    }
}

/// A line is drawn when it is appended, and what was drawn stays.
proof fn lemma_line(svg: Seq<char>, line: Seq<char>)
    ensures
        drawn(svg + line, line),
        forall|part: Seq<char>| #[trigger] drawn(svg, part) ==> drawn(svg + line, part),
{
    lemma_drawn(svg, line);
    lemma_drawn_stays(svg, line);
}

/// Three pieces make a line.
proof fn lemma_line_of_three(svg: Seq<char>, a: Seq<char>, b: Seq<char>, c: Seq<char>)
    ensures
        svg + a + b + c == svg + (a + b + c),
        drawn(svg + a + b + c, a + b + c),
        forall|part: Seq<char>| #[trigger] drawn(svg, part) ==> drawn(svg + a + b + c, part),
{
    assert(svg + a + b + c =~= svg + (a + b + c));
    lemma_line(svg, a + b + c);
}

/// Five pieces make a line.
proof fn lemma_line_of_five(
    svg: Seq<char>,
    a: Seq<char>,
    b: Seq<char>,
    c: Seq<char>,
    d: Seq<char>,
    e: Seq<char>,
)
    ensures
        drawn(svg + a + b + c + d + e, a + b + c + d + e),
        forall|part: Seq<char>| #[trigger]
            drawn(svg, part) ==> drawn(svg + a + b + c + d + e, part),
{
    assert(svg + a + b + c + d + e =~= svg + (a + b + c + d + e));
    lemma_line(svg, a + b + c + d + e);
}

/// Seven pieces make a line.
proof fn lemma_line_of_seven(
    svg: Seq<char>,
    a: Seq<char>,
    b: Seq<char>,
    c: Seq<char>,
    d: Seq<char>,
    e: Seq<char>,
    f: Seq<char>,
    g: Seq<char>,
)
    ensures
        drawn(svg + a + b + c + d + e + f + g, a + b + c + d + e + f + g),
        forall|part: Seq<char>| #[trigger]
            drawn(svg, part) ==> drawn(svg + a + b + c + d + e + f + g, part),
{
    assert(svg + a + b + c + d + e + f + g =~= svg + (a + b + c + d + e + f + g));
    lemma_line(svg, a + b + c + d + e + f + g);
}

/// What a drawing shows of a row that begins at a height: the name, the bar, the latency, the
/// weight, the allocations and the description.
pub open spec fn row_drawn(svg: Seq<char>, y: nat, row: Row) -> bool {
    &&& drawn(
        svg,
        "  <text x=\"36\" y=\""@ + text::decimal(y + 14) + "\" class=\"cell\">"@
            + baseline::xml_escaped(baseline::short_name_of(row.name@)) + "</text>\n"@,
    )
    &&& drawn(
        svg,
        "  <rect x=\"200\" y=\""@ + text::decimal(y + 4) + "\" width=\""@ + text::decimal(
            row.bar_width as nat,
        ) + "\" height=\"14\" rx=\"2\" fill=\""@ + row.color.code()@
            + "\" opacity=\"0.8\"/>\n"@,
    )
    &&& drawn(
        svg,
        "  <text x=\""@ + text::decimal(204 + row.bar_width as nat) + "\" y=\""@
            + text::decimal(y + 14) + "\" class=\"cell\">"@ + row.latency@ + "</text>\n"@,
    )
    &&& drawn(
        svg,
        "  <text x=\"400\" y=\""@ + text::decimal(y + 14) + "\" class=\"cell\">"@ + row.weight@
            + "%</text>\n"@,
    )
    &&& drawn(
        svg,
        "  <text x=\"460\" y=\""@ + text::decimal(y + 14) + "\" class=\"cell\">"@
            + text::decimal(row.allocations as nat) + "</text>\n"@,
    )
    &&& drawn(
        svg,
        "  <text x=\"520\" y=\""@ + text::decimal(y + 25) + "\" class=\"cell-desc\">"@
            + baseline::xml_escaped(baseline::shortened(row.description@)) + "</text>\n"@,
    )
    &&& drawn(
        svg,
        "  <line x1=\"32\" y1=\""@ + text::decimal(y + 32) + "\" x2=\"748\" y2=\""@
            + text::decimal(y + 32) + "\" stroke=\"#e2e8f0\" stroke-width=\"0.5\"/>\n"@,
    )
}

/// The cells of a row are drawn, and what was drawn stays.
proof fn lemma_cells(svg: Seq<char>, y: nat, row: Row)
    ensures
        row_drawn(baseline::cells_of(svg, y, row), y, row),
        forall|part: Seq<char>| #[trigger]
            drawn(svg, part) ==> drawn(baseline::cells_of(svg, y, row), part),
{
    let s0 = svg;
    let name = baseline::xml_escaped(baseline::short_name_of(row.name@));
    let y14 = text::decimal(y + 14);
    let s1 = s0 + "  <text x=\"36\" y=\""@ + y14 + "\" class=\"cell\">"@ + name
        + "</text>\n"@;
    lemma_line_of_five(
        s0,
        "  <text x=\"36\" y=\""@,
        y14,
        "\" class=\"cell\">"@,
        name,
        "</text>\n"@,
    );
    let y4 = text::decimal(y + 4);
    let width = text::decimal(row.bar_width as nat);
    let color = row.color.code()@;
    let s2 = s1 + "  <rect x=\"200\" y=\""@ + y4 + "\" width=\""@ + width
        + "\" height=\"14\" rx=\"2\" fill=\""@ + color + "\" opacity=\"0.8\"/>\n"@;
    lemma_line_of_seven(
        s1,
        "  <rect x=\"200\" y=\""@,
        y4,
        "\" width=\""@,
        width,
        "\" height=\"14\" rx=\"2\" fill=\""@,
        color,
        "\" opacity=\"0.8\"/>\n"@,
    );
    let right = text::decimal(204 + row.bar_width as nat);
    let s3 = s2 + "  <text x=\""@ + right + "\" y=\""@ + y14 + "\" class=\"cell\">"@
        + row.latency@ + "</text>\n"@;
    lemma_line_of_seven(
        s2,
        "  <text x=\""@,
        right,
        "\" y=\""@,
        y14,
        "\" class=\"cell\">"@,
        row.latency@,
        "</text>\n"@,
    );
    let s4 = s3 + "  <text x=\"400\" y=\""@ + y14 + "\" class=\"cell\">"@ + row.weight@
        + "%</text>\n"@;
    lemma_line_of_five(
        s3,
        "  <text x=\"400\" y=\""@,
        y14,
        "\" class=\"cell\">"@,
        row.weight@,
        "%</text>\n"@,
    );
    let allocations = text::decimal(row.allocations as nat);
    let s5 = s4 + "  <text x=\"460\" y=\""@ + y14 + "\" class=\"cell\">"@ + allocations
        + "</text>\n"@;
    lemma_line_of_five(
        s4,
        "  <text x=\"460\" y=\""@,
        y14,
        "\" class=\"cell\">"@,
        allocations,
        "</text>\n"@,
    );
    let description = baseline::xml_escaped(baseline::shortened(row.description@));
    let y25 = text::decimal(y + 25);
    let s6 = s5 + "  <text x=\"520\" y=\""@ + y25 + "\" class=\"cell-desc\">"@ + description
        + "</text>\n"@;
    lemma_line_of_five(
        s5,
        "  <text x=\"520\" y=\""@,
        y25,
        "\" class=\"cell-desc\">"@,
        description,
        "</text>\n"@,
    );
    let y32 = text::decimal(y + 32);
    let s7 = s6 + "  <line x1=\"32\" y1=\""@ + y32 + "\" x2=\"748\" y2=\""@ + y32
        + "\" stroke=\"#e2e8f0\" stroke-width=\"0.5\"/>\n"@;
    lemma_line_of_five(
        s6,
        "  <line x1=\"32\" y1=\""@,
        y32,
        "\" x2=\"748\" y2=\""@,
        y32,
        "\" stroke=\"#e2e8f0\" stroke-width=\"0.5\"/>\n"@,
    );
    assert(s7 == baseline::cells_of(svg, y, row));
}

/// A row is drawn, every other one on a stripe, and what was drawn stays.
proof fn lemma_row(svg: Seq<char>, i: nat, row: Row)
    ensures
        row_drawn(baseline::row_of(svg, i, row), 136 + 32 * i, row),
        i % 2 == 0 ==> drawn(
            baseline::row_of(svg, i, row),
            "  <rect x=\"32\" y=\""@ + text::decimal(136 + 32 * i)
                + "\" width=\"716\" height=\"32\" fill=\"#f8fafc\"/>\n"@,
        ),
        i % 2 == 1 ==> baseline::row_of(svg, i, row) == baseline::cells_of(svg, 136 + 32 * i, row),
        forall|part: Seq<char>| #[trigger]
            drawn(svg, part) ==> drawn(baseline::row_of(svg, i, row), part),
{
    let y = 136 + 32 * i;
    if i % 2 == 0 {
        lemma_line_of_three(
            svg,
            "  <rect x=\"32\" y=\""@,
            text::decimal(y),
            "\" width=\"716\" height=\"32\" fill=\"#f8fafc\"/>\n"@,
        );
        let striped = baseline::stripe_of(svg, y);
        lemma_cells(striped, y, row);
        assert forall|part: Seq<char>| #[trigger] drawn(svg, part) implies drawn(
            baseline::row_of(svg, i, row),
            part,
        ) by {
            assert(drawn(striped, part));
        }
    } else {
        lemma_cells(svg, y, row);
    }
}

/// A row stays drawn where everything that was drawn stays.
proof fn lemma_row_stays(svg: Seq<char>, after: Seq<char>, y: nat, row: Row)
    requires
        row_drawn(svg, y, row),
        forall|part: Seq<char>| #[trigger] drawn(svg, part) ==> drawn(after, part),
    ensures
        row_drawn(after, y, row),
{
}

/// The stripe behind every other row.
pub open spec fn stripe_drawn(svg: Seq<char>, y: nat) -> bool {
    drawn(
        svg,
        "  <rect x=\"32\" y=\""@ + text::decimal(y)
            + "\" width=\"716\" height=\"32\" fill=\"#f8fafc\"/>\n"@,
    )
}

/// Every row is drawn, one below the other, and what was drawn stays.
proof fn lemma_rows(svg: Seq<char>, rows: Seq<Row>)
    ensures
        forall|i: int|
            0 <= i < rows.len() && i % 2 == 0 ==> #[trigger] stripe_drawn(
                baseline::rows_of(svg, rows),
                (136 + 32 * i) as nat,
            ),
        forall|i: int|
            0 <= i < rows.len() ==> row_drawn(
                baseline::rows_of(svg, rows),
                (136 + 32 * i) as nat,
                #[trigger] rows[i],
            ),
        forall|part: Seq<char>| #[trigger]
            drawn(svg, part) ==> drawn(baseline::rows_of(svg, rows), part),
    decreases rows.len(),
{
    if rows.len() > 0 {
        let before = baseline::rows_of(svg, rows.drop_last());
        let after = baseline::rows_of(svg, rows);
        let last = (rows.len() - 1) as nat;
        lemma_rows(svg, rows.drop_last());
        lemma_row(before, last, rows.last());
        assert forall|i: int| 0 <= i < rows.len() implies row_drawn(
            after,
            (136 + 32 * i) as nat,
            #[trigger] rows[i],
        ) by {
            if i < last {
                assert(rows.drop_last()[i] == rows[i]);
                lemma_row_stays(before, after, (136 + 32 * i) as nat, rows[i]);
            }
        }
        assert forall|i: int| 0 <= i < rows.len() && i % 2 == 0 implies #[trigger] stripe_drawn(
            after,
            (136 + 32 * i) as nat,
        ) by {
            if i < last {
                assert(stripe_drawn(before, (136 + 32 * i) as nat));
            }
        }
        assert forall|part: Seq<char>| #[trigger] drawn(svg, part) implies drawn(after, part) by {
            assert(drawn(before, part));
        }
    }
}

/// What the title of a drawing shows: the version, and the platform, the processor and the date.
pub open spec fn title_drawn(svg: Seq<char>, metadata: Metadata) -> bool {
    &&& drawn(
        svg,
        "  <text x=\"390\" y=\"42\" text-anchor=\"middle\" class=\"title\">rolly v"@
            + baseline::xml_escaped(metadata.version@) + " Performance Baseline</text>\n"@,
    )
    &&& drawn(
        svg,
        "  <text x=\"390\" y=\"62\" text-anchor=\"middle\" class=\"subtitle\">"@
            + baseline::xml_escaped(metadata.platform@) + " / "@ + baseline::xml_escaped(
            metadata.cpu@,
        ) + " / "@ + baseline::xml_escaped(metadata.date@) + "</text>\n"@,
    )
}

/// The title is drawn, and what was drawn stays.
proof fn lemma_title(svg: Seq<char>, metadata: Metadata)
    ensures
        title_drawn(baseline::title_of(svg, metadata), metadata),
        forall|part: Seq<char>| #[trigger]
            drawn(svg, part) ==> drawn(baseline::title_of(svg, metadata), part),
{
    let a = "  <text x=\"390\" y=\"42\" text-anchor=\"middle\" class=\"title\">rolly v"@;
    let version = baseline::xml_escaped(metadata.version@);
    let s1 = svg + a + version + " Performance Baseline</text>\n"@;
    lemma_line_of_three(svg, a, version, " Performance Baseline</text>\n"@);
    let b = "  <text x=\"390\" y=\"62\" text-anchor=\"middle\" class=\"subtitle\">"@;
    let platform = baseline::xml_escaped(metadata.platform@);
    let cpu = baseline::xml_escaped(metadata.cpu@);
    let date = baseline::xml_escaped(metadata.date@);
    let s2 = s1 + b + platform + " / "@ + cpu + " / "@ + date + "</text>\n"@;
    lemma_line_of_seven(s1, b, platform, " / "@, cpu, " / "@, date, "</text>\n"@);
    let c =
        "  <line x1=\"32\" y1=\"76\" x2=\"748\" y2=\"76\" stroke=\"#e2e8f0\" stroke-width=\"1\"/>\n"@;
    lemma_line(s2, c);
    assert(s2 + c == baseline::title_of(svg, metadata));
}

/// The headings stand below what was drawn.
pub open spec fn headings_drawn(svg: Seq<char>) -> bool {
    &&& drawn(svg, "  <text x=\"36\" y=\"92\" class=\"col-hdr\">ENDPOINT</text>\n"@)
    &&& drawn(svg, "  <text x=\"200\" y=\"92\" class=\"col-hdr\">LATENCY (us)</text>\n"@)
    &&& drawn(svg, "  <text x=\"400\" y=\"92\" class=\"col-hdr\">WEIGHT</text>\n"@)
    &&& drawn(svg, "  <text x=\"460\" y=\"92\" class=\"col-hdr\">ALLOCS</text>\n"@)
    &&& drawn(svg, "  <text x=\"520\" y=\"92\" class=\"col-hdr\">DESCRIPTION</text>\n"@)
}

/// The headings are drawn, and what was drawn stays.
proof fn lemma_headings(svg: Seq<char>)
    ensures
        headings_drawn(baseline::headings_of(svg)),
        forall|part: Seq<char>| #[trigger]
            drawn(svg, part) ==> drawn(baseline::headings_of(svg), part),
{
    let s1 = svg + "  <text x=\"36\" y=\"92\" class=\"col-hdr\">ENDPOINT</text>\n"@;
    lemma_line(svg, "  <text x=\"36\" y=\"92\" class=\"col-hdr\">ENDPOINT</text>\n"@);
    let s2 = s1 + "  <text x=\"200\" y=\"92\" class=\"col-hdr\">LATENCY (us)</text>\n"@;
    lemma_line(s1, "  <text x=\"200\" y=\"92\" class=\"col-hdr\">LATENCY (us)</text>\n"@);
    let s3 = s2 + "  <text x=\"400\" y=\"92\" class=\"col-hdr\">WEIGHT</text>\n"@;
    lemma_line(s2, "  <text x=\"400\" y=\"92\" class=\"col-hdr\">WEIGHT</text>\n"@);
    let s4 = s3 + "  <text x=\"460\" y=\"92\" class=\"col-hdr\">ALLOCS</text>\n"@;
    lemma_line(s3, "  <text x=\"460\" y=\"92\" class=\"col-hdr\">ALLOCS</text>\n"@);
    let s5 = s4 + "  <text x=\"520\" y=\"92\" class=\"col-hdr\">DESCRIPTION</text>\n"@;
    lemma_line(s4, "  <text x=\"520\" y=\"92\" class=\"col-hdr\">DESCRIPTION</text>\n"@);
    let rule =
        "  <line x1=\"32\" y1=\"98\" x2=\"748\" y2=\"98\" stroke=\"#e2e8f0\" stroke-width=\"0.5\"/>\n"@;
    lemma_line(s5, rule);
    assert(s5 + rule == baseline::headings_of(svg));
}

/// What a drawing shows below the rows: the line of the budget, the average, the CPU time at the
/// target rate, the verdict in its color, and the budget.
pub open spec fn summary_drawn(svg: Seq<char>, bottom: nat, summary: Summary) -> bool {
    &&& drawn(
        svg,
        "  <line x1=\""@ + text::decimal(200 + summary.budget_bar as nat)
            + "\" y1=\"136\" x2=\""@ + text::decimal(200 + summary.budget_bar as nat)
            + "\" y2=\""@ + text::decimal(bottom)
            + "\" stroke=\"#dc2626\" stroke-width=\"1\" stroke-dasharray=\"4,2\"/>\n"@,
    )
    &&& drawn(
        svg,
        "  <text x=\"36\" y=\""@ + text::decimal(bottom + 30)
            + "\" class=\"summary\">Weighted avg: "@ + summary.weighted_avg@
            + " us/req</text>\n"@,
    )
    &&& drawn(
        svg,
        "  <text x=\"250\" y=\""@ + text::decimal(bottom + 30)
            + "\" class=\"summary\">CPU at "@ + text::decimal(summary.target_rps as nat)
            + " req/s: "@ + summary.total_cpu@ + "%</text>\n"@,
    )
    &&& drawn(
        svg,
        "  <rect x=\"500\" y=\""@ + text::decimal(bottom + 20)
            + "\" width=\"70\" height=\"20\" rx=\"10\" fill=\""@
            + summary.verdict.background_code()@ + "\" stroke=\""@
            + summary.verdict.color_code()@ + "\" stroke-width=\"1\"/>\n"@,
    )
    &&& drawn(
        svg,
        "  <text x=\"535\" y=\""@ + text::decimal(bottom + 34)
            + "\" text-anchor=\"middle\" class=\"verdict\" fill=\""@
            + summary.verdict.color_code()@ + "\">"@ + summary.verdict.text()@ + "</text>\n"@,
    )
}

/// The summary is drawn, and what was drawn stays.
proof fn lemma_summary(svg: Seq<char>, bottom: nat, summary: Summary)
    ensures
        summary_drawn(
            baseline::summary_of(baseline::budget_of(svg, bottom, summary), bottom, summary),
            bottom,
            summary,
        ),
        forall|part: Seq<char>| #[trigger]
            drawn(svg, part) ==> drawn(
                baseline::summary_of(baseline::budget_of(svg, bottom, summary), bottom, summary),
                part,
            ),
{
    let x = text::decimal(200 + summary.budget_bar as nat);
    let dashes = "\" stroke=\"#dc2626\" stroke-width=\"1\" stroke-dasharray=\"4,2\"/>\n"@;
    let s0 = baseline::budget_of(svg, bottom, summary);
    lemma_line_of_seven(
        svg,
        "  <line x1=\""@,
        x,
        "\" y1=\"136\" x2=\""@,
        x,
        "\" y2=\""@,
        text::decimal(bottom),
        dashes,
    );
    let y12 = text::decimal(bottom + 12);
    let rule = "\" stroke=\"#e2e8f0\" stroke-width=\"1\"/>\n"@;
    let s1 = s0 + "  <line x1=\"32\" y1=\""@ + y12 + "\" x2=\"748\" y2=\""@ + y12 + rule;
    lemma_line_of_five(s0, "  <line x1=\"32\" y1=\""@, y12, "\" x2=\"748\" y2=\""@, y12, rule);
    let y30 = text::decimal(bottom + 30);
    let s2 = s1 + "  <text x=\"36\" y=\""@ + y30 + "\" class=\"summary\">Weighted avg: "@
        + summary.weighted_avg@ + " us/req</text>\n"@;
    lemma_line_of_five(
        s1,
        "  <text x=\"36\" y=\""@,
        y30,
        "\" class=\"summary\">Weighted avg: "@,
        summary.weighted_avg@,
        " us/req</text>\n"@,
    );
    let rps = text::decimal(summary.target_rps as nat);
    let s3 = s2 + "  <text x=\"250\" y=\""@ + y30 + "\" class=\"summary\">CPU at "@ + rps
        + " req/s: "@ + summary.total_cpu@ + "%</text>\n"@;
    lemma_line_of_seven(
        s2,
        "  <text x=\"250\" y=\""@,
        y30,
        "\" class=\"summary\">CPU at "@,
        rps,
        " req/s: "@,
        summary.total_cpu@,
        "%</text>\n"@,
    );
    let color = summary.verdict.color_code()@;
    let background = summary.verdict.background_code()@;
    let y20 = text::decimal(bottom + 20);
    let s4 = s3 + "  <rect x=\"500\" y=\""@ + y20
        + "\" width=\"70\" height=\"20\" rx=\"10\" fill=\""@ + background
        + "\" stroke=\""@ + color + "\" stroke-width=\"1\"/>\n"@;
    lemma_line_of_seven(
        s3,
        "  <rect x=\"500\" y=\""@,
        y20,
        "\" width=\"70\" height=\"20\" rx=\"10\" fill=\""@,
        background,
        "\" stroke=\""@,
        color,
        "\" stroke-width=\"1\"/>\n"@,
    );
    let y34 = text::decimal(bottom + 34);
    let word = summary.verdict.text()@;
    let s5 = s4 + "  <text x=\"535\" y=\""@ + y34
        + "\" text-anchor=\"middle\" class=\"verdict\" fill=\""@ + color + "\">"@ + word
        + "</text>\n"@;
    lemma_line_of_seven(
        s4,
        "  <text x=\"535\" y=\""@,
        y34,
        "\" text-anchor=\"middle\" class=\"verdict\" fill=\""@,
        color,
        "\">"@,
        word,
        "</text>\n"@,
    );
    assert(s5 == baseline::summary_of(s0, bottom, summary));
}

/// What the foot of a drawing shows: the budget for a request, and for all at the target rate.
pub open spec fn footer_drawn(svg: Seq<char>, bottom: nat, summary: Summary) -> bool {
    drawn(
        svg,
        "  <text x=\"390\" y=\""@ + text::decimal(bottom + 76)
            + "\" text-anchor=\"middle\" class=\"footer\">Budget: "@ + summary.budget_us@
            + " us/req ("@ + summary.budget_percent@ + "% CPU at "@ + (text::decimal(
            summary.target_rps as nat,
        ) + " req/s)</text>\n"@),
    )
}

/// The footer is drawn, what was drawn stays, and the drawing ends.
proof fn lemma_footer(svg: Seq<char>, bottom: nat, summary: Summary)
    ensures
        footer_drawn(baseline::footer_of(svg, bottom, summary), bottom, summary),
        drawn(baseline::footer_of(svg, bottom, summary), "</svg>\n"@),
        forall|part: Seq<char>| #[trigger]
            drawn(svg, part) ==> drawn(baseline::footer_of(svg, bottom, summary), part),
{
    let a = "  <text x=\"390\" y=\""@;
    let y76 = text::decimal(bottom + 76);
    let b = "\" text-anchor=\"middle\" class=\"footer\">Budget: "@;
    let rps = text::decimal(summary.target_rps as nat);
    let end = " req/s)</text>\n"@;
    let s0 = svg + a + y76 + b + summary.budget_us@ + " us/req ("@ + summary.budget_percent@
        + "% CPU at "@;
    let s1 = s0 + rps + end;
    assert(s1 =~= s0 + (rps + end));
    let line = a + y76 + b + summary.budget_us@ + " us/req ("@ + summary.budget_percent@
        + "% CPU at "@;
    assert(s0 =~= svg + line);
    assert(s1 =~= svg + (line + (rps + end)));
    lemma_line(svg, line + (rps + end));
    let y92 = text::decimal(bottom + 92);
    let c =
        "\" text-anchor=\"middle\" class=\"footer\">rolly &#x2014; github.com/l1x/rolly</text>\n"@;
    let s2 = s1 + a + y92 + c;
    lemma_line_of_three(s1, a, y92, c);
    lemma_line(s2, "</svg>\n"@);
    assert(s2 + "</svg>\n"@ == baseline::footer_of(svg, bottom, summary));
}

/// The drawing shows everything: the title, the headings, each row at its height, 32 below the
/// one before, and the summary and the footer below the last row.
pub proof fn lemma_everything_is_drawn(metadata: Metadata, rows: Seq<Row>, summary: Summary)
    ensures
        ({
            let svg = baseline::rendered(metadata, rows, summary);
            let bottom = (136 + 32 * rows.len()) as nat;
            &&& title_drawn(svg, metadata)
            &&& headings_drawn(svg)
            &&& forall|i: int|
                0 <= i < rows.len() ==> row_drawn(
                    svg,
                    (136 + 32 * i) as nat,
                    #[trigger] rows[i],
                )
            &&& forall|i: int|
                0 <= i < rows.len() && i % 2 == 0 ==> #[trigger] stripe_drawn(
                    svg,
                    (136 + 32 * i) as nat,
                )
            &&& summary_drawn(svg, bottom, summary)
            &&& footer_drawn(svg, bottom, summary)
        }),
{
    let bottom = baseline::table_bottom(rows.len());
    let opened = baseline::preamble_of(seq![], bottom + 106);
    let titled = baseline::title_of(opened, metadata);
    let top = baseline::headings_of(titled);
    let table = baseline::rows_of(top, rows);
    let summed = baseline::summary_of(
        baseline::budget_of(table, bottom, summary),
        bottom,
        summary,
    );
    let svg = baseline::footer_of(summed, bottom, summary);
    lemma_title(opened, metadata);
    lemma_headings(titled);
    lemma_rows(top, rows);
    lemma_summary(table, bottom, summary);
    lemma_footer(summed, bottom, summary);
    assert forall|i: int| 0 <= i < rows.len() implies row_drawn(
        svg,
        (136 + 32 * i) as nat,
        #[trigger] rows[i],
    ) by {
        let y = (136 + 32 * i) as nat;
        lemma_row_stays(table, summed, y, rows[i]);
        lemma_row_stays(summed, svg, y, rows[i]);
    }
    assert forall|i: int| 0 <= i < rows.len() && i % 2 == 0 implies #[trigger] stripe_drawn(
        svg,
        (136 + 32 * i) as nat,
    ) by {
        assert(stripe_drawn(table, (136 + 32 * i) as nat));
        assert(stripe_drawn(summed, (136 + 32 * i) as nat));
    }
    assert(forall|part: Seq<char>| #[trigger] drawn(titled, part) ==> drawn(top, part));
    assert(title_drawn(top, metadata));
    assert(title_drawn(table, metadata) && headings_drawn(table));
    assert(title_drawn(summed, metadata) && headings_drawn(summed));
}

/// Whether a text begins with another.
pub open spec fn begins(svg: Seq<char>, head: Seq<char>) -> bool {
    text::stands_at(svg, head, 0)
}

/// A text begins as it did when more is appended.
proof fn lemma_begins_still(head: Seq<char>)
    ensures
        forall|x: Seq<char>, y: Seq<char>| begins(x, head) ==> begins(#[trigger] (x + y), head),
{
    assert forall|x: Seq<char>, y: Seq<char>| begins(x, head) implies begins(
        #[trigger] (x + y),
        head,
    ) by {
        assert((x + y).subrange(0, head.len() as int) =~= x.subrange(0, head.len() as int));
    }
}

/// A table begins as the text did that it stands in.
proof fn lemma_rows_begin(svg: Seq<char>, rows: Seq<Row>, head: Seq<char>)
    requires
        begins(svg, head),
    ensures
        begins(baseline::rows_of(svg, rows), head),
    decreases rows.len(),
{
    lemma_begins_still(head);
    if rows.len() > 0 {
        lemma_rows_begin(svg, rows.drop_last(), head);
        let before = baseline::rows_of(svg, rows.drop_last());
        let y = 136 + 32 * (rows.len() - 1) as nat;
        assert(begins(baseline::stripe_of(before, y), head));
        assert(begins(baseline::cells_of(before, y, rows.last()), head));
        assert(begins(
            baseline::cells_of(baseline::stripe_of(before, y), y, rows.last()),
            head,
        ));
    }
}

/// The drawing begins with its size: 780 wide, and high enough for its rows, 32 for each.
pub proof fn lemma_drawing_has_its_size(metadata: Metadata, rows: Seq<Row>, summary: Summary)
    ensures
        begins(
            baseline::rendered(metadata, rows, summary),
            "<svg viewBox=\"0 0 780 "@ + text::decimal((242 + 32 * rows.len()) as nat)
                + "\" xmlns=\"http://www.w3.org/2000/svg\">\n"@,
        ),
{
    let bottom = baseline::table_bottom(rows.len());
    let height = text::decimal(bottom + 106);
    let a = "<svg viewBox=\"0 0 780 "@;
    let b = "\" xmlns=\"http://www.w3.org/2000/svg\">\n"@;
    let head = a + height + b;
    let none: Seq<char> = seq![];
    assert(none + a + height + b =~= head);
    assert(head.subrange(0, head.len() as int) =~= head);
    lemma_begins_still(head);
    let opened = baseline::preamble_of(none, bottom + 106);
    assert(begins(none + a + height + b, head));
    assert(begins(opened, head));
    let titled = baseline::title_of(opened, metadata);
    assert(begins(titled, head));
    let top = baseline::headings_of(titled);
    assert(begins(top, head));
    lemma_rows_begin(top, rows, head);
    let table = baseline::rows_of(top, rows);
    let marked = baseline::budget_of(table, bottom, summary);
    assert(begins(marked, head));
    let summed = baseline::summary_of(marked, bottom, summary);
    assert(begins(summed, head));
}

} // verus!

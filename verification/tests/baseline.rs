use rolly::baseline::{
    endpoint, render_svg, replace_value, select_entries, short_name, shorten, update_baseline,
    verdict, xml_escape, BarColor, Metadata, Row, Summary, Verdict, ENDPOINTS,
};
use rolly::text;

#[test]
fn short_names_lose_the_common_prefix() {
    assert_eq!(short_name("ecommerce_cart_add"), "cart_add");
    assert_eq!(short_name("checkout"), "checkout");
    assert_eq!(short_name("ecommerce_"), "");
    assert_eq!(short_name("my_ecommerce_cart"), "my_ecommerce_cart");
}

#[test]
fn markup_is_escaped() {
    assert_eq!(
        xml_escape("a < b && \"c\" > d"),
        "a &lt; b &amp;&amp; &quot;c&quot; &gt; d"
    );
    assert_eq!(xml_escape("plain \u{2014} text"), "plain \u{2014} text");
}

#[test]
fn long_descriptions_are_cut() {
    let forty = "0123456789012345678901234567890123456789";
    assert_eq!(shorten(forty), forty);
    assert_eq!(
        shorten("01234567890123456789012345678901234567890"),
        "0123456789012345678901234567890123456..."
    );
    assert_eq!(shorten("short"), "short");
}

#[test]
fn verdict_on_a_run() {
    assert_eq!(verdict(&[0, 0], true), Verdict::Pending);
    assert_eq!(verdict(&[], false), Verdict::Pending);
    assert_eq!(verdict(&[0, 7], true), Verdict::Pass);
    assert_eq!(verdict(&[0, 7], false), Verdict::Fail);
}

#[test]
fn entries_come_in_the_order_of_the_report() {
    let names: Vec<String> = ["ecommerce_health", "other", "ecommerce_search"]
        .iter()
        .map(|name| name.to_string())
        .collect();
    assert_eq!(select_entries(&names), vec![2, 0]);
    assert_eq!(endpoint(0), "ecommerce_catalog_browse");
    assert_eq!(endpoint(ENDPOINTS - 1), "ecommerce_health");
    assert!(select_entries(&vec![]).is_empty());
}

#[test]
fn values_are_replaced_in_place() {
    let toml = "# notes\na = 1 # one\nb = 2\n";
    assert_eq!(replace_value(toml, "a", "7"), "# notes\na = 7\nb = 2\n");
    assert_eq!(replace_value(toml, "b", "\"x\""), "# notes\na = 1 # one\nb = \"x\"\n");
    assert_eq!(replace_value(toml, "c", "3"), toml);
    assert_eq!(replace_value("k = old", "k", "new"), "k = new");
}

#[test]
fn figures_are_written_into_the_baseline() {
    let toml = "[cpu_budget]\nweighted_avg_us = 0.0\ntotal_cpu_percent = 0.0\nverdict = \"PENDING\"\n";
    assert_eq!(
        update_baseline(toml, "12.345", "3.70", Verdict::Pass),
        "[cpu_budget]\nweighted_avg_us = 12.345\ntotal_cpu_percent = 3.70\nverdict = \"PASS\"\n"
    );
}

#[test]
fn numbers_are_written_in_decimal() {
    for n in [0, 7, 10, 99, 100, 1234567890, u64::MAX] {
        let mut written = String::from("#");
        text::push_decimal(&mut written, n);
        assert_eq!(written, format!("#{}", n));
    }
}

#[test]
fn texts_are_found() {
    let text = text::chars_of("abcabd");
    assert_eq!(text::find(&text, &text::chars_of("abd")), Some(3));
    assert_eq!(text::find(&text, &text::chars_of("b")), Some(1));
    assert_eq!(text::find(&text, &text::chars_of("")), Some(0));
    assert_eq!(text::find(&text, &text::chars_of("abcabda")), None);
    assert_eq!(text::find(&text, &text::chars_of("x")), None);
}

fn row(name: &str, color: BarColor) -> Row {
    Row {
        name: name.into(),
        latency: "12.3".into(),
        weight: "40".into(),
        bar_width: 66,
        color,
        allocations: 17,
        description: "Browse & search the <catalog>".into(),
    }
}

fn summary(verdict: Verdict) -> Summary {
    Summary {
        weighted_avg: "11.52".into(),
        total_cpu: "3.46".into(),
        target_rps: 3000,
        verdict,
        budget_us: "33.3".into(),
        budget_percent: "10".into(),
        budget_bar: 180,
    }
}

#[test]
fn drawing_shows_every_row() {
    let metadata = Metadata {
        version: "0.9.1".into(),
        date: "2025-01-01".into(),
        platform: "linux/x86_64".into(),
        cpu: "A&B".into(),
    };
    let rows = vec![
        row("ecommerce_catalog_browse", BarColor::Green),
        row("ecommerce_search", BarColor::Red),
    ];
    let svg = render_svg(&metadata, &rows, &summary(Verdict::Pass));
    let lines: Vec<&str> = svg.lines().collect();
    assert_eq!(
        lines[0],
        "<svg viewBox=\"0 0 780 306\" xmlns=\"http://www.w3.org/2000/svg\">"
    );
    assert_eq!(*lines.last().unwrap(), "</svg>");
    for expected in [
        "  <rect x=\"16\" y=\"12\" width=\"748\" height=\"282\" rx=\"8\" fill=\"#ffffff\" stroke=\"#e2e8f0\" stroke-width=\"1\"/>",
        "  <text x=\"390\" y=\"42\" text-anchor=\"middle\" class=\"title\">rolly v0.9.1 Performance Baseline</text>",
        "  <text x=\"390\" y=\"62\" text-anchor=\"middle\" class=\"subtitle\">linux/x86_64 / A&amp;B / 2025-01-01</text>",
        "  <rect x=\"32\" y=\"136\" width=\"716\" height=\"32\" fill=\"#f8fafc\"/>",
        "  <text x=\"36\" y=\"150\" class=\"cell\">catalog_browse</text>",
        "  <rect x=\"200\" y=\"140\" width=\"66\" height=\"14\" rx=\"2\" fill=\"#059669\" opacity=\"0.8\"/>",
        "  <text x=\"270\" y=\"150\" class=\"cell\">12.3</text>",
        "  <text x=\"400\" y=\"182\" class=\"cell\">40%</text>",
        "  <text x=\"460\" y=\"182\" class=\"cell\">17</text>",
        "  <rect x=\"200\" y=\"172\" width=\"66\" height=\"14\" rx=\"2\" fill=\"#dc2626\" opacity=\"0.8\"/>",
        "  <text x=\"520\" y=\"193\" class=\"cell-desc\">Browse &amp; search the &lt;catalog&gt;</text>",
        "  <line x1=\"32\" y1=\"200\" x2=\"748\" y2=\"200\" stroke=\"#e2e8f0\" stroke-width=\"0.5\"/>",
        "  <line x1=\"380\" y1=\"136\" x2=\"380\" y2=\"200\" stroke=\"#dc2626\" stroke-width=\"1\" stroke-dasharray=\"4,2\"/>",
        "  <text x=\"36\" y=\"230\" class=\"summary\">Weighted avg: 11.52 us/req</text>",
        "  <text x=\"250\" y=\"230\" class=\"summary\">CPU at 3000 req/s: 3.46%</text>",
        "  <text x=\"535\" y=\"234\" text-anchor=\"middle\" class=\"verdict\" fill=\"#059669\">PASS</text>",
        "  <text x=\"390\" y=\"276\" text-anchor=\"middle\" class=\"footer\">Budget: 33.3 us/req (10% CPU at 3000 req/s)</text>",
        "  <text x=\"390\" y=\"292\" text-anchor=\"middle\" class=\"footer\">rolly &#x2014; github.com/l1x/rolly</text>",
    ] {
        assert!(lines.contains(&expected), "missing: {}", expected);
    }
    // Only every other row has a background.
    assert_eq!(svg.matches("fill=\"#f8fafc\"").count(), 1);
    assert_eq!(lines.len(), 47);
}

#[test]
fn drawing_of_nothing_still_has_a_frame() {
    let metadata = Metadata {
        version: String::new(),
        date: String::new(),
        platform: String::new(),
        cpu: String::new(),
    };
    for (verdict, color, background) in [
        (Verdict::Pending, "#64748b", "#f1f5f9"),
        (Verdict::Fail, "#dc2626", "#fef2f2"),
    ] {
        let svg = render_svg(&metadata, &vec![], &summary(verdict));
        assert!(svg.contains("0 0 780 242"));
        assert!(svg.contains(verdict.name()));
        assert!(svg.contains(color) && svg.contains(background));
    }
    assert_eq!(BarColor::Orange.hex(), "#ea580c");
}

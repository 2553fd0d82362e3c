use deltio::metrics::encoder::PromText;

#[test]
fn renders_family_and_samples() {
    let mut p = PromText::new();
    p.family("deltio_topics", "gauge", "Number of topics.");
    p.sample("deltio_topics", 3);
    p.family("deltio_x", "counter", "X.");
    p.labeled("deltio_x", &[("topic", "projects/p/topics/t")], 7);

    let out = p.into_string();
    assert_eq!(
        out,
        "# HELP deltio_topics Number of topics.\n\
         # TYPE deltio_topics gauge\n\
         deltio_topics 3\n\
         # HELP deltio_x X.\n\
         # TYPE deltio_x counter\n\
         deltio_x{topic=\"projects/p/topics/t\"} 7\n"
    );
}

#[test]
fn escapes_label_values() {
    let mut p = PromText::new();
    p.labeled("m", &[("k", "a\"b\\c\nd")], 1);
    assert_eq!(p.into_string(), "m{k=\"a\\\"b\\\\c\\nd\"} 1\n");
}

#[test]
fn escaped_values_differ() {
    let render = |value: &str| {
        let mut p = PromText::new();
        p.labeled("m", &[("k", value)], 1);
        p.into_string()
    };
    // A line feed, and a backslash in front of an n.
    assert_eq!(render("\n"), "m{k=\"\\n\"} 1\n");
    assert_eq!(render("\\n"), "m{k=\"\\\\n\"} 1\n");
}

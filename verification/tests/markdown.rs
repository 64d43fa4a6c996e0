use pwr_viewgen::markdown::parse;
use pwr_viewgen::markdown::parse_inline;
use pwr_viewgen::markdown::Block;
use pwr_viewgen::markdown::MentionKind;
use pwr_viewgen::markdown::Span;

fn t(s: &str) -> Span {
    Span::Text(s.to_owned())
}

fn plain(parts: &[&str]) -> Vec<Span> {
    parts.iter().map(|p| t(p)).collect()
}

fn para(text: &str) -> Block {
    Block::Para(parse_inline(text, 0))
}

#[test]
fn inline_table() {
    let cases: Vec<(&str, Vec<Span>)> = vec![
        ("hello world", plain(&["hello world"])),
        ("**hi**", vec![Span::Bold(plain(&["hi"]))]),
        ("**unclosed", plain(&["**unclosed"])),
        ("****", plain(&["****"])),
        ("__under__", vec![Span::Underline(plain(&["under"]))]),
        ("*it*", vec![Span::Italic(plain(&["it"]))]),
        ("_it_", vec![Span::Italic(plain(&["it"]))]),
        ("snake_case_name", plain(&["snake_case_name"])),
        ("a*b*c", vec![t("a"), Span::Italic(plain(&["b"])), t("c")]),
        ("~~gone~~", vec![Span::Strike(plain(&["gone"]))]),
        ("~~open", plain(&["~~open"])),
        ("||secret||", vec![Span::Spoiler(plain(&["secret"]))]),
        ("||oops", plain(&["||oops"])),
        ("||||", plain(&["||||"])),
        ("`**raw**`", vec![Span::Code("**raw**".to_owned())]),
        ("``", plain(&["``"])),
        (
            "**bold _it_**",
            vec![Span::Bold(vec![t("bold "), Span::Italic(plain(&["it"]))])],
        ),
        (
            "||spoiler **b**||",
            vec![Span::Spoiler(vec![t("spoiler "), Span::Bold(plain(&["b"]))])],
        ),
        (r"\*not italic\*", plain(&["*not italic*"])),
        (r"a\b", plain(&[r"a\b"])),
        (
            "<:tada:123456789>",
            vec![Span::Emoji {
                id: "123456789".to_owned(),
                name: "tada".to_owned(),
                animated: false,
            }],
        ),
        (
            "<a:dance:42>",
            vec![Span::Emoji {
                id: "42".to_owned(),
                name: "dance".to_owned(),
                animated: true,
            }],
        ),
        ("<:noid>", plain(&["<:noid>"])),
        ("<:x:abc>", plain(&["<:x:abc>"])),
        ("<@123>", vec![Span::Mention(MentionKind::User("123".into()))]),
        ("<@&777>", vec![Span::Mention(MentionKind::Role("777".into()))]),
        ("<#555>", vec![Span::Mention(MentionKind::Channel("555".into()))]),
        ("<@>", plain(&["<@>"])),
        (
            "ping @everyone!",
            vec![t("ping "), Span::Mention(MentionKind::Everyone), t("!")],
        ),
        (
            "hey @here.",
            vec![t("hey "), Span::Mention(MentionKind::Here), t(".")],
        ),
        ("@everyonez stays", plain(&["@everyonez stays"])),
        ("<t:0:f>", vec![Span::Timestamp { unix: 0, style: 'f' }]),
        (
            "<t:1709164800>",
            vec![Span::Timestamp {
                unix: 1_709_164_800,
                style: 'f',
            }],
        ),
        ("<t:-5:t>", vec![Span::Timestamp { unix: -5, style: 't' }]),
        ("<t:1:x>", plain(&["<t:1:x>"])),
        ("<t:zz>", plain(&["<t:zz>"])),
        (
            "[click](https://x.test/a)",
            vec![Span::Link {
                url: "https://x.test/a".to_owned(),
                label: plain(&["click"]),
            }],
        ),
        (
            "[**b**](u)",
            vec![Span::Link {
                url: "u".to_owned(),
                label: vec![Span::Bold(plain(&["b"]))],
            }],
        ),
        ("[no url]", plain(&["[no url]"])),
        (
            "see https://ex.test/path_a now",
            vec![
                t("see "),
                Span::Autolink("https://ex.test/path_a".to_owned()),
                t(" now"),
            ],
        ),
        (
            "go https://x.test/a.",
            vec![
                t("go "),
                Span::Autolink("https://x.test/a".to_owned()),
                t("."),
            ],
        ),
        (
            "(visit http://a.b/c)",
            vec![
                t("(visit "),
                Span::Autolink("http://a.b/c".to_owned()),
                t(")"),
            ],
        ),
    ];
    for (input, expected) in cases {
        assert_eq!(parse_inline(input, 0), expected, "input: {input:?}");
    }
}

#[test]
fn adjacent_literal_text_merges_into_one_span() {
    assert_eq!(
        parse_inline(r"pre \* mid ~~post", 0),
        plain(&[r"pre * mid ~~post"])
    );
}
#[test]
fn block_table() {
    let cases: Vec<(&str, Vec<Block>)> = vec![
        ("one line", vec![para("one line")]),
        ("a\nb", vec![para("a\nb")]),
        ("first\n\nsecond", vec![para("first"), para("second")]),
        ("# h1", vec![Block::Heading(1, plain(&["h1"]))]),
        ("## h2", vec![Block::Heading(2, plain(&["h2"]))]),
        ("### h3", vec![Block::Heading(3, plain(&["h3"]))]),
        ("#### four", vec![para("#### four")]),
        ("#nospace", vec![para("#nospace")]),
        (
            "-# small text",
            vec![Block::Subtext(plain(&["small text"]))],
        ),
        (
            "- # not subtext",
            vec![Block::List {
                ordered: false,
                items: vec![parse_inline("# not subtext", 0)],
            }],
        ),
        (
            "```rust\nfn x() {}\n```",
            vec![Block::Code {
                lang: "rust".to_owned(),
                body: "fn x() {}".to_owned(),
            }],
        ),
        (
            "```\n**not bold**\n```",
            vec![Block::Code {
                lang: String::new(),
                body: "**not bold**".to_owned(),
            }],
        ),
        (
            "```js\nlet a = 1;",
            vec![Block::Code {
                lang: "js".to_owned(),
                body: "let a = 1;".to_owned(),
            }],
        ),
        (
            "> line1\n> line2",
            vec![Block::Quote {
                wide: false,
                blocks: vec![para("line1\nline2")],
            }],
        ),
        (
            "> # Title\n> body",
            vec![Block::Quote {
                wide: false,
                blocks: vec![Block::Heading(1, plain(&["Title"])), para("body")],
            }],
        ),
        (
            ">>> all\nof this is quoted",
            vec![Block::Quote {
                wide: true,
                blocks: vec![para("all\nof this is quoted")],
            }],
        ),
        (
            "- alpha\n- beta",
            vec![Block::List {
                ordered: false,
                items: vec![parse_inline("alpha", 0), parse_inline("beta", 0)],
            }],
        ),
        (
            "1. first\n2. second",
            vec![Block::List {
                ordered: true,
                items: vec![parse_inline("first", 0), parse_inline("second", 0)],
            }],
        ),
        (
            "- **big** item",
            vec![Block::List {
                ordered: false,
                items: vec![parse_inline("**big** item", 0)],
            }],
        ),
        (
            "# Title\nintro text\n- one\n- two\n\nafter gap",
            vec![
                Block::Heading(1, plain(&["Title"])),
                para("intro text"),
                Block::List {
                    ordered: false,
                    items: vec![parse_inline("one", 0), parse_inline("two", 0)],
                },
                para("after gap"),
            ],
        ),
    ];
    for (input, expected) in cases {
        assert_eq!(parse(input), expected, "input: {input:?}");
    }
}

#[test]
fn deep_marker_nesting_degrades_to_text_instead_of_overflowing() {
    let input = "*".repeat(200) + "x";
    let blocks = parse(&input);
    assert!(matches!(blocks.as_slice(), [Block::Para(_)]));
}

struct XorShift(u64);

impl XorShift {
    fn next(&mut self) -> u64 {
        let mut x = self.0;
        x ^= x << 13;
        x ^= x >> 7;
        x ^= x << 17;
        self.0 = x;
        x
    }
}

#[test]
fn fuzzish_inputs_never_panic() {
    let alphabet: Vec<char> = "*~_|<>[]()`\\#@&:!.-ab1 \n>=\"'".chars().collect();
    let mut rng = XorShift(0x2545_F491_4F6C_DD1D);
    for _case in 0..500 {
        let len = 1 + (rng.next() % 300) as usize;
        let input: String = (0..len)
            .map(|_| alphabet[(rng.next() % alphabet.len() as u64) as usize])
            .collect();
        parse(&input);
    }
}

#[test]
fn multibyte_characters_survive_parsing() {
    assert_eq!(parse_inline("héllo wörld ✓", 0), plain(&["héllo wörld ✓"]));
    assert_eq!(parse("日本語\nテスト"), vec![para("日本語\nテスト")]);
}

fn depth(spans: &[Span]) -> usize {
    spans
        .iter()
        .map(|s| match s {
            Span::Bold(v)
            | Span::Italic(v)
            | Span::Underline(v)
            | Span::Strike(v)
            | Span::Spoiler(v) => 1 + depth(v),
            Span::Link { label, .. } => 1 + depth(label),
            _ => 0,
        })
        .max()
        .unwrap_or(0)
}

#[test]
fn nesting_stops_at_sixteen_levels() {
    let input = "||".repeat(20) + "x" + &"||".repeat(20);
    let spans = parse_inline(&input, 0);
    assert!(depth(&spans) <= 16, "depth {}", depth(&spans));
    let shallow = parse_inline("**a**", 16);
    assert_eq!(shallow, plain(&["**a**"]));
}

#[test]
fn text_spans_never_stand_side_by_side() {
    for input in [r"a\*b\_c", "x <@> y <t:zz> z", "plain ``` text", r"\\ \| ~~"] {
        let spans = parse_inline(input, 0);
        for pair in spans.windows(2) {
            assert!(
                !matches!((&pair[0], &pair[1]), (Span::Text(_), Span::Text(_))),
                "input {input:?}: {spans:?}"
            );
        }
        for span in &spans {
            if let Span::Text(t) = span {
                assert!(!t.is_empty());
            }
        }
    }
}

#[test]
fn no_nesting_past_the_depth_limit() {
    assert_eq!(parse_inline("**a** ||b|| [c](u)", 20), plain(&["**a** ||b|| [c](u)"]));
}

#[test]
fn a_long_marker_run_stays_shallow() {
    let input = "*".repeat(200) + "x";
    let blocks = parse(&input);
    let [Block::Para(spans)] = blocks.as_slice() else {
        panic!("expected one paragraph: {blocks:?}");
    };
    assert!(depth(spans) <= 16, "depth {}", depth(spans));
}

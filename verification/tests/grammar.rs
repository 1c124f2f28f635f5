use launcher_core::calc::{parse_calc, tokenize, CalcExpr, CalcToken};
use launcher_core::filter::{FilterPresets, FilterState, MagicWords};
use launcher_core::pack::{register_packs, LoadedPack, PackDef, PackMagicWord, PackMeta, PackTag};
use launcher_core::tags::{Tag, TagRegistry};

fn show(e: &CalcExpr, s: &[char]) -> String {
    let bin = |op: &str, a: &CalcExpr, b: &CalcExpr| format!("({} {op} {})", show(a, s), show(b, s));
    match e {
        CalcExpr::Num { start, end } => s[*start..*end].iter().collect(),
        CalcExpr::Neg(a) => format!("(-{})", show(a, s)),
        CalcExpr::Add(a, b) => bin("+", a, b),
        CalcExpr::Sub(a, b) => bin("-", a, b),
        CalcExpr::Mul(a, b) => bin("*", a, b),
        CalcExpr::Div(a, b) => bin("/", a, b),
        CalcExpr::Rem(a, b) => bin("%", a, b),
        CalcExpr::Pow(a, b) => bin("^", a, b),
    }
}

fn parsed(input: &str) -> Option<String> {
    let chars: Vec<char> = input.chars().collect();
    let tokens = tokenize(input)?;
    let tree = parse_calc(&tokens)?;
    Some(show(&tree, &chars))
}

#[test]
fn calculator_tokens() {
    let t = tokenize(" 12.5*(3 -x").is_none();
    assert!(t);
    let t = tokenize("12.5*(3\t- 4)").unwrap();
    assert_eq!(
        t,
        vec![
            CalcToken::Num { start: 0, end: 4 },
            CalcToken::Op('*'),
            CalcToken::LParen,
            CalcToken::Num { start: 6, end: 7 },
            CalcToken::Op('-'),
            CalcToken::Num { start: 10, end: 11 },
            CalcToken::RParen,
        ]
    );
    assert_eq!(tokenize("").unwrap(), vec![]);
    assert_eq!(tokenize("7").unwrap(), vec![CalcToken::Num { start: 0, end: 1 }]);
}

#[test]
fn calculator_precedence() {
    assert_eq!(parsed("1 + 2 * 3").as_deref(), Some("(1 + (2 * 3))"));
    assert_eq!(parsed("1 - 2 - 3").as_deref(), Some("((1 - 2) - 3)"));
    assert_eq!(parsed("2 ^ 3 ^ 2").as_deref(), Some("(2 ^ (3 ^ 2))"));
    assert_eq!(parsed("-2 ^ 2").as_deref(), Some("((-2) ^ 2)"));
    assert_eq!(parsed("+4 % (1 + 2) / 5").as_deref(), Some("((4 % (1 + 2)) / 5)"));
    assert_eq!(parsed("(1)").as_deref(), Some("1"));
}

#[test]
fn calculator_rejects_malformed_expressions() {
    assert_eq!(parsed(""), None);
    assert_eq!(parsed("1 +"), None);
    assert_eq!(parsed("(1 + 2"), None);
    assert_eq!(parsed("1 2"), None);
    assert_eq!(parsed("--1"), None);
    assert_eq!(parsed("1 + 2)"), None);
    assert_eq!(parsed("abc"), None);
}

#[test]
fn presets_are_seeded_once() {
    let mut presets = FilterPresets::default();
    let mut f = FilterState::new();
    f.toggle_include("a");
    assert!(presets.add_if_absent("p", f));
    let mut g = FilterState::new();
    g.toggle_include("b");
    assert!(!presets.add_if_absent("p", g));
    assert_eq!(presets.get("p").unwrap().state.included, vec!["a".to_string()]);
}

#[test]
fn packs_register_tags_and_magic_words() {
    let pack = LoadedPack {
        def: PackDef {
            pack: PackMeta {
                name: "vis".to_string(),
                version: String::new(),
                author: String::new(),
                description: String::new(),
                url: String::new(),
                prefix: None,
            },
            tags: vec![PackTag {
                path: "Reaper/Visibility".to_string(),
                name: "Visibility".to_string(),
                description: "Track visibility".to_string(),
                color: "#cba6f7".to_string(),
                icon: "eye".to_string(),
            }],
            items: vec![],
            icons: vec![],
            magic_words: vec![PackMagicWord { keyword: "V".to_string(), preset: "Vis".to_string() }],
            presets: vec![],
        },
        base_dir: "/p".to_string(),
    };
    let mut tags = TagRegistry::new();
    let mut words = MagicWords::default();
    register_packs(&[pack], &mut tags, &mut words);
    let info = tags.info(&Tag::new("reaper/visibility")).unwrap();
    assert_eq!(info.display_name, "Visibility");
    assert_eq!(info.description, "Track visibility");
    assert_eq!(info.color, "#cba6f7");
    assert_eq!(info.icon, "eye");
    assert!(tags.info(&Tag::new("reaper")).is_some());
    assert_eq!(words.list().len(), 1);
    assert_eq!(words.list()[0].keyword, "v");
    assert_eq!(words.check("v tracks"), Some(("Vis", "tracks")));
}

#[test]
fn tag_icon_is_set_on_registered_tags_only() {
    let mut tags = TagRegistry::new();
    tags.register("a/b", "B", "");
    tags.set_icon("A/B", "star");
    tags.set_icon("missing", "x");
    assert_eq!(tags.info(&Tag::new("a/b")).unwrap().icon, "star");
    assert!(tags.info(&Tag::new("missing")).is_none());
}

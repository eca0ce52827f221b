use graffiti::atom::{Atom, Interner};
use graffiti::parser::{tokenize, Token, TokenKind};
use graffiti::selector::{
    Combinator, Component, MatchingContext, Selector, SelectorPart, Tag, TagKind,
};

fn tag(kind: TagKind, atoms: &mut Interner, name: &str) -> Tag {
    Tag { kind, name: atoms.intern(name.as_bytes()) }
}

/// html -> body#app -> div#panel -> button.btn -> span
fn document(atoms: &mut Interner) -> MatchingContext {
    let local_names = vec!["html", "body", "div", "button", "span"];
    let ids = vec!["", "app", "panel", "", ""];
    let class_names = vec!["", "", "", "btn", ""];
    let parents = vec![None, Some(0), Some(1), Some(2), Some(3)];
    let mut ctx = MatchingContext::new();
    for e in 0..local_names.len() {
        let mut tags = vec![tag(TagKind::LocalName, atoms, local_names[e])];
        if !ids[e].is_empty() {
            tags.push(tag(TagKind::Identifier, atoms, ids[e]));
        }
        if !class_names[e].is_empty() {
            tags.push(tag(TagKind::ClassName, atoms, class_names[e]));
        }
        assert_eq!(ctx.push_node(tags, parents[e]), e);
    }
    ctx
}

fn match_sel(ctx: &MatchingContext, atoms: &mut Interner, s: &str, el: usize) -> bool {
    let sel = Selector::parse(s, atoms);
    ctx.match_selector(&sel, el).is_some()
}

fn matches_nowhere(ctx: &MatchingContext, atoms: &mut Interner, s: &str) -> bool {
    (0..ctx.len()).all(|el| !match_sel(ctx, atoms, s, el))
}

#[test]
fn matching() {
    let atoms = &mut Interner::new();
    let ctx = &document(atoms);

    // invalid
    assert!(!match_sel(ctx, atoms, "", 0));

    // basic
    assert!(match_sel(ctx, atoms, "*", 0));
    assert!(match_sel(ctx, atoms, "html", 0));
    assert!(match_sel(ctx, atoms, "body", 1));
    assert!(match_sel(ctx, atoms, "#app", 1));
    assert!(match_sel(ctx, atoms, "div", 2));
    assert!(match_sel(ctx, atoms, "#panel", 2));
    assert!(match_sel(ctx, atoms, "button", 3));
    assert!(match_sel(ctx, atoms, ".btn", 3));
    assert!(match_sel(ctx, atoms, "span", 4));

    // combined
    assert!(match_sel(ctx, atoms, "body#app", 1));
    assert!(match_sel(ctx, atoms, "div#panel", 2));
    assert!(match_sel(ctx, atoms, "button.btn", 3));

    // parent
    assert!(match_sel(ctx, atoms, "button > span", 4));
    assert!(match_sel(ctx, atoms, "div#panel > button.btn > span", 4));

    // ancestor
    assert!(match_sel(ctx, atoms, "button span", 4));
    assert!(match_sel(ctx, atoms, "div#panel span", 4));
    assert!(match_sel(ctx, atoms, "body div .btn span", 4));

    // OR
    assert!(match_sel(ctx, atoms, "div, span", 4));
    assert!(match_sel(ctx, atoms, "a, b, c, span, d", 4));
    assert!(match_sel(ctx, atoms, "html, body", 1));

    // complex
    assert!(match_sel(ctx, atoms, "div, span.foo, #panel span", 4));
    assert!(match_sel(ctx, atoms, "a b c d e f g, span", 4));
}

#[test]
fn scenario_local_name_html_not_body() {
    let atoms = &mut Interner::new();
    let ctx = &document(atoms);
    assert!(match_sel(ctx, atoms, "html", 0));
    assert!(!match_sel(ctx, atoms, "html", 1));
}

#[test]
fn scenario_id_compound() {
    let atoms = &mut Interner::new();
    let ctx = &document(atoms);
    assert!(match_sel(ctx, atoms, "div#panel", 2));
    assert!(matches_nowhere(ctx, atoms, "div#other"));
}

#[test]
fn scenario_parent_is_one_level() {
    let atoms = &mut Interner::new();
    let ctx = &document(atoms);
    assert!(match_sel(ctx, atoms, "button > span", 4));
    assert!(matches_nowhere(ctx, atoms, "button > div"));
    // div is the grandparent of span, not its parent
    assert!(!match_sel(ctx, atoms, "div > span", 4));
}

#[test]
fn scenario_ancestor_any_depth() {
    let atoms = &mut Interner::new();
    let ctx = &document(atoms);
    assert!(match_sel(ctx, atoms, "div#panel span", 4));
    assert!(match_sel(ctx, atoms, "button span", 4));
    assert!(match_sel(ctx, atoms, "html span", 4));
    // an element is not its own ancestor
    assert!(!match_sel(ctx, atoms, "span span", 4));
    assert!(!match_sel(ctx, atoms, "html html", 0));
}

#[test]
fn scenario_alternatives() {
    let atoms = &mut Interner::new();
    let ctx = &document(atoms);
    assert!(match_sel(ctx, atoms, "div, span.foo, #panel span", 4));
    assert!(match_sel(ctx, atoms, "a, b, c, span, d", 4));
    assert!(!match_sel(ctx, atoms, "a, b, c, d", 4));
}

#[test]
fn alternative_restarts_after_failed_ancestor_search() {
    let atoms = &mut Interner::new();
    let ctx = &document(atoms);
    // the first alternative climbs to the root and fails; the second starts
    // again from span itself
    assert!(match_sel(ctx, atoms, "nope span, span", 4));
    assert!(match_sel(ctx, atoms, "x > span, button > span", 4));
}

#[test]
fn universal_matches_every_node() {
    let atoms = &mut Interner::new();
    let ctx = &document(atoms);
    for el in 0..ctx.len() {
        assert!(match_sel(ctx, atoms, "*", el));
        assert!(match_sel(ctx, atoms, "  *  ", el));
    }
    assert!(match_sel(ctx, atoms, "*.btn", 3));
    assert!(!match_sel(ctx, atoms, "*.btn", 4));
}

#[test]
fn local_name_is_case_sensitive() {
    let atoms = &mut Interner::new();
    let ctx = &document(atoms);
    assert!(matches_nowhere(ctx, atoms, "HTML"));
    assert!(matches_nowhere(ctx, atoms, "Span"));
    assert!(match_sel(ctx, atoms, "span", 4));
}

#[test]
fn id_and_class_ignore_name_and_place() {
    let atoms = &mut Interner::new();
    let ctx = &document(atoms);
    for el in 0..ctx.len() {
        assert_eq!(match_sel(ctx, atoms, "#panel", el), el == 2);
        assert_eq!(match_sel(ctx, atoms, ".btn", el), el == 3);
    }
    // both components of a compound hold of the same element
    assert!(matches_nowhere(ctx, atoms, "span#panel"));
    assert!(matches_nowhere(ctx, atoms, "div.btn"));
    assert!(match_sel(ctx, atoms, "button.btn", 3));
}

#[test]
fn empty_and_malformed_text_match_nothing() {
    let atoms = &mut Interner::new();
    let ctx = &document(atoms);
    for s in ["", "   ", "a >", "> a", ", span", "span,", "span,,div", "#", ".", "span*", "# panel", "div >> span"] {
        assert!(matches_nowhere(ctx, atoms, s), "{:?}", s);
    }
}

#[test]
fn unsupported_syntax_matches_nothing() {
    let atoms = &mut Interner::new();
    let ctx = &document(atoms);
    assert!(matches_nowhere(ctx, atoms, "span:hover"));
    assert!(matches_nowhere(ctx, atoms, "[href]"));
    assert!(matches_nowhere(ctx, atoms, "span ~ div"));
    // an unsupported alternative does not spoil the others
    assert!(match_sel(ctx, atoms, "a:hover, span", 4));
}

#[test]
fn parsing_twice_gives_the_same_selector() {
    let atoms = &mut Interner::new();
    let ctx = &document(atoms);
    let s = "div#panel > button.btn span, html";
    let a = Selector::parse(s, atoms);
    let b = Selector::parse(s, atoms);
    assert_eq!(a.parts(), b.parts());
    for el in 0..ctx.len() {
        assert_eq!(ctx.match_selector(&a, el), ctx.match_selector(&b, el));
    }
}

#[test]
fn compiled_parts_run_from_the_element_up() {
    let atoms = &mut Interner::new();
    let sel = Selector::parse("div#x > span, *", atoms);
    let div = atoms.find(b"div").unwrap();
    let x = atoms.find(b"x").unwrap();
    let span = atoms.find(b"span").unwrap();
    assert_eq!(
        sel.parts(),
        &vec![
            SelectorPart::Component(Component::LocalName(span)),
            SelectorPart::Combinator(Combinator::Parent),
            SelectorPart::Component(Component::LocalName(div)),
            SelectorPart::Component(Component::Identifier(x)),
            SelectorPart::Combinator(Combinator::Or),
            SelectorPart::Combinator(Combinator::Universal),
        ]
    );
    let bad = Selector::parse("div >", atoms);
    assert_eq!(bad.parts(), &vec![SelectorPart::Component(Component::Unsupported)]);
}

#[test]
fn specificity_is_zero() {
    let atoms = &mut Interner::new();
    let ctx = &document(atoms);
    let sel = Selector::parse("div#panel span", atoms);
    assert_eq!(ctx.match_selector(&sel, 4), Some(0));
    assert_eq!(ctx.match_selector(&sel, 3), None);
}

#[test]
fn tag_stack_matching() {
    let atoms = &mut Interner::new();
    let html = vec![tag(TagKind::LocalName, atoms, "html")];
    let div = vec![tag(TagKind::LocalName, atoms, "div"), tag(TagKind::ClassName, atoms, "a"), tag(TagKind::ClassName, atoms, "b")];
    let p = vec![tag(TagKind::LocalName, atoms, "p")];
    let stack = vec![html, div, p];
    let yes = ["p", "div p", "div.a.b > p", "html p", ".b p", "x, html > div > p"];
    let no = ["div", "html > p", "div.c p", "p p", "#a p"];
    for s in yes {
        assert!(Selector::parse(s, atoms).matches(&stack), "{}", s);
    }
    for s in no {
        assert!(!Selector::parse(s, atoms).matches(&stack), "{}", s);
    }
    assert!(Selector::parse("div.a", atoms).matches(&stack[..2].to_vec()));
}

#[test]
fn context_parent_and_tags() {
    let atoms = &mut Interner::new();
    let ctx = document(atoms);
    assert_eq!(ctx.parent(0), None);
    assert_eq!(ctx.parent(4), Some(3));
    let btn = Tag { kind: TagKind::ClassName, name: atoms.find(b"btn").unwrap() };
    assert!(ctx.has_tag(3, btn));
    assert!(!ctx.has_tag(4, btn));
    let stack = ctx.tag_stack(2);
    assert_eq!(stack.len(), 3);
    assert_eq!(stack[2].len(), 2);
}

#[test]
fn interning_deduplicates() {
    let mut atoms = Interner::new();
    let a = atoms.intern(b"div");
    let b = atoms.intern(b"span");
    let c = atoms.intern(b"div");
    assert_eq!(a, c);
    assert_ne!(a, b);
    assert_eq!(atoms.len(), 2);
    assert_eq!(atoms.name(b), &b"span".to_vec());
    assert_eq!(atoms.find(b"span"), Some(b));
    assert_eq!(atoms.find(b"Div"), None);
    assert_eq!(a, Atom { index: 0 });
}

#[test]
fn tokens_of_a_selector() {
    let s = b"div#a > .b,*x";
    let t = |kind, start, end| Token { kind, start, end };
    assert_eq!(
        tokenize(s),
        vec![
            t(TokenKind::Ident, 0, 3),
            t(TokenKind::Hash, 3, 4),
            t(TokenKind::Ident, 4, 5),
            t(TokenKind::Space, 5, 6),
            t(TokenKind::Gt, 6, 7),
            t(TokenKind::Space, 7, 8),
            t(TokenKind::Dot, 8, 9),
            t(TokenKind::Ident, 9, 10),
            t(TokenKind::Comma, 10, 11),
            t(TokenKind::Star, 11, 12),
            t(TokenKind::Ident, 12, 13),
        ]
    );
    assert_eq!(tokenize(b":hover-x a"), vec![t(TokenKind::Other, 0, 8), t(TokenKind::Space, 8, 9), t(TokenKind::Ident, 9, 10)]);
    assert_eq!(tokenize(b""), vec![]);
}

#[test]
fn ancestor_search_stops_at_nearest_first_component() {
    let atoms = &mut Interner::new();
    let mut ctx = MatchingContext::new();
    let html = vec![tag(TagKind::LocalName, atoms, "html")];
    let outer = vec![tag(TagKind::LocalName, atoms, "div"), tag(TagKind::Identifier, atoms, "panel")];
    let inner = vec![tag(TagKind::LocalName, atoms, "div")];
    let span = vec![tag(TagKind::LocalName, atoms, "span")];
    ctx.push_node(html, None);
    ctx.push_node(outer, Some(0));
    ctx.push_node(inner, Some(1));
    ctx.push_node(span, Some(2));
    // the climb for `div` stops at the inner div, which lacks the id
    assert!(!match_sel(&ctx, atoms, "div#panel span", 3));
    assert!(match_sel(&ctx, atoms, "#panel span", 3));
    assert!(match_sel(&ctx, atoms, "div span", 3));
}

#[test]
fn universal_under_a_combinator_needs_an_element_above() {
    let atoms = &mut Interner::new();
    let ctx = &document(atoms);
    // the root has no parent and no ancestor
    assert!(!match_sel(ctx, atoms, "* > html", 0));
    assert!(!match_sel(ctx, atoms, "* html", 0));
    assert!(match_sel(ctx, atoms, "* > body", 1));
    assert!(match_sel(ctx, atoms, "* span", 4));
    assert!(match_sel(ctx, atoms, "*#panel > button", 3));
    assert!(!match_sel(ctx, atoms, "*#app > button", 3));
    assert!(match_sel(ctx, atoms, "html > *", 1));
    assert!(!match_sel(ctx, atoms, "html > *", 0));
    assert!(match_sel(ctx, atoms, "* > html, html", 0));
}

use spez::arms::{Args, Arm};
use spez::codegen::{refs, spez_impl};
use spez::parse::{parse, ParseError, ParseErrorKind};
use spez::slot::Slot;
use spez::token::{ident, lit, punct, punct_joint, Delim, Tok};

fn id(s: &str) -> Tok {
    ident(s)
}

fn p(c: char) -> Tok {
    punct(c)
}

fn pj(c: char) -> Tok {
    punct_joint(c)
}

fn ob() -> Tok {
    Tok::Open(Delim::Brace)
}

fn cb() -> Tok {
    Tok::Close(Delim::Brace)
}

fn op() -> Tok {
    Tok::Open(Delim::Paren)
}

fn cp() -> Tok {
    Tok::Close(Delim::Paren)
}

fn obr() -> Tok {
    Tok::Open(Delim::Bracket)
}

fn cbr() -> Tok {
    Tok::Close(Delim::Bracket)
}

/// `struct Match<T>(core::cell::Cell<Option<T>>);`
fn holder_decl() -> Vec<Tok> {
    vec![
        id("struct"),
        id("Match"),
        p('<'),
        id("T"),
        p('>'),
        op(),
        id("core"),
        pj(':'),
        p(':'),
        id("cell"),
        pj(':'),
        p(':'),
        id("Cell"),
        p('<'),
        id("Option"),
        p('<'),
        id("T"),
        p('>'),
        p('>'),
        cp(),
        p(';'),
    ]
}

/// `trait NAME { type Return; fn spez(&self) -> Self::Return; }`
fn trait_decl(name: &str) -> Vec<Tok> {
    vec![
        id("trait"),
        id(name),
        ob(),
        id("type"),
        id("Return"),
        p(';'),
        id("fn"),
        id("spez"),
        op(),
        p('&'),
        id("self"),
        cp(),
        pj('-'),
        p('>'),
        id("Self"),
        pj(':'),
        p(':'),
        id("Return"),
        p(';'),
        cb(),
    ]
}

/// `fn spez(&self) -> Self::Return {`
fn spez_fn_header() -> Vec<Tok> {
    vec![
        id("fn"),
        id("spez"),
        op(),
        p('&'),
        id("self"),
        cp(),
        pj('-'),
        p('>'),
        id("Self"),
        pj(':'),
        p(':'),
        id("Return"),
        ob(),
    ]
}

/// The binding prologue for subject name `name`.
fn prologue(name: &str) -> Vec<Tok> {
    vec![
        p('#'),
        obr(),
        id("allow"),
        op(),
        id("unused_mut"),
        cp(),
        cbr(),
        id("let"),
        id("mut"),
        id(name),
        p('='),
        id("self"),
        p('.'),
        lit("0"),
        p('.'),
        id("take"),
        op(),
        cp(),
        p('.'),
        id("unwrap"),
        op(),
        cp(),
        p(';'),
        id("let"),
        id("_"),
        p('='),
        id(name),
        p(';'),
    ]
}

/// `(REFS Match(core::cell::Cell::new(Some(EXPR)))).spez()`
fn call_expr(mut refs_toks: Vec<Tok>, expr: Vec<Tok>) -> Vec<Tok> {
    let mut out = vec![op()];
    out.append(&mut refs_toks);
    out.append(&mut vec![
        id("Match"),
        op(),
        id("core"),
        pj(':'),
        p(':'),
        id("cell"),
        pj(':'),
        p(':'),
        id("Cell"),
        pj(':'),
        p(':'),
        id("new"),
        op(),
        id("Some"),
        op(),
    ]);
    out.extend(expr);
    out.append(&mut vec![cp(), cp(), cp(), cp(), p('.'), id("spez"), op(), cp()]);
    out
}

#[test]
fn parses_minimal_invocation() {
    // for x; match i32 { }
    let input = vec![id("for"), id("x"), p(';'), id("match"), id("i32"), ob(), cb()];
    let args = parse(&input).unwrap();
    assert_eq!(
        args,
        Args {
            name: None,
            expr: vec![id("x")],
            arms: vec![Arm {
                generics: None,
                ty: vec![id("i32")],
                where_clause: None,
                return_type: None,
                body: vec![],
            }],
        }
    );
}

#[test]
fn parses_named_expression_subject() {
    // for x = 1 + 1; match i32 -> i32 { x }
    let input = vec![
        id("for"),
        id("x"),
        p('='),
        lit("1"),
        p('+'),
        lit("1"),
        p(';'),
        id("match"),
        id("i32"),
        pj('-'),
        p('>'),
        id("i32"),
        ob(),
        id("x"),
        cb(),
    ];
    let args = parse(&input).unwrap();
    assert_eq!(args.name, Some(vec!['x']));
    assert_eq!(args.expr, vec![lit("1"), p('+'), lit("1")]);
    assert_eq!(args.arms.len(), 1);
    assert_eq!(args.arms[0].return_type, Some(vec![id("i32")]));
    assert_eq!(args.arms[0].body, vec![id("x")]);
}

#[test]
fn parses_anonymous_expression_subject() {
    // for 1 + 1; match i32 -> i32 { 0 } — no binding name, still one arm.
    let input = vec![
        id("for"),
        lit("1"),
        p('+'),
        lit("1"),
        p(';'),
        id("match"),
        id("i32"),
        pj('-'),
        p('>'),
        id("i32"),
        ob(),
        lit("0"),
        cb(),
    ];
    let args = parse(&input).unwrap();
    assert_eq!(args.name, None);
    assert_eq!(args.expr, vec![lit("1"), p('+'), lit("1")]);
}

#[test]
fn equality_in_subject_is_not_a_binding() {
    // for x == y; match bool { } — `==` must not be read as `x =`.
    let input = vec![
        id("for"),
        id("x"),
        pj('='),
        p('='),
        id("y"),
        p(';'),
        id("match"),
        id("bool"),
        ob(),
        cb(),
    ];
    let args = parse(&input).unwrap();
    assert_eq!(args.name, None);
    assert_eq!(args.expr, vec![id("x"), pj('='), p('='), id("y")]);
}

#[test]
fn parses_generics_and_where_clause() {
    // for v; match<T: Debug> T where i8: From<T> -> i32 { 0 }
    let input = vec![
        id("for"),
        id("v"),
        p(';'),
        id("match"),
        p('<'),
        id("T"),
        p(':'),
        id("Debug"),
        p('>'),
        id("T"),
        id("where"),
        id("i8"),
        p(':'),
        id("From"),
        p('<'),
        id("T"),
        p('>'),
        pj('-'),
        p('>'),
        id("i32"),
        ob(),
        lit("0"),
        cb(),
    ];
    let args = parse(&input).unwrap();
    let arm = &args.arms[0];
    assert_eq!(arm.generics, Some(vec![id("T"), p(':'), id("Debug")]));
    assert_eq!(arm.ty, vec![id("T")]);
    assert_eq!(
        arm.where_clause,
        Some(vec![id("i8"), p(':'), id("From"), p('<'), id("T"), p('>')])
    );
    assert_eq!(arm.return_type, Some(vec![id("i32")]));
}

#[test]
fn parses_nested_angle_brackets_in_generics() {
    // for v; match<T: Into<Vec<u8>>> T { }
    let input = vec![
        id("for"),
        id("v"),
        p(';'),
        id("match"),
        p('<'),
        id("T"),
        p(':'),
        id("Into"),
        p('<'),
        id("Vec"),
        p('<'),
        id("u8"),
        p('>'),
        p('>'),
        p('>'),
        id("T"),
        ob(),
        cb(),
    ];
    let args = parse(&input).unwrap();
    let arm = &args.arms[0];
    assert_eq!(
        arm.generics,
        Some(vec![
            id("T"),
            p(':'),
            id("Into"),
            p('<'),
            id("Vec"),
            p('<'),
            id("u8"),
            p('>'),
            p('>'),
        ])
    );
    assert_eq!(arm.ty, vec![id("T")]);
}

#[test]
fn parses_two_arms_in_order() {
    // for y; match i32 { } match i64 { }
    let input = vec![
        id("for"),
        id("y"),
        p(';'),
        id("match"),
        id("i32"),
        ob(),
        cb(),
        id("match"),
        id("i64"),
        ob(),
        cb(),
    ];
    let args = parse(&input).unwrap();
    assert_eq!(args.arms.len(), 2);
    assert_eq!(args.arms[0].ty, vec![id("i32")]);
    assert_eq!(args.arms[1].ty, vec![id("i64")]);
}

#[test]
fn rejects_empty_input() {
    let r = parse(&vec![]);
    assert_eq!(r, Err(ParseError { kind: ParseErrorKind::ExpectedFor, pos: 0 }));
}

#[test]
fn rejects_missing_for() {
    let r = parse(&vec![id("match"), id("i32"), ob(), cb()]);
    assert_eq!(r, Err(ParseError { kind: ParseErrorKind::ExpectedFor, pos: 0 }));
}

#[test]
fn rejects_zero_arms() {
    let r = parse(&vec![id("for"), id("x"), p(';')]);
    assert_eq!(r, Err(ParseError { kind: ParseErrorKind::NoArms, pos: 3 }));
}

#[test]
fn rejects_missing_semicolon() {
    let r = parse(&vec![id("for"), id("x")]);
    assert_eq!(r, Err(ParseError { kind: ParseErrorKind::MissingSemicolon, pos: 2 }));
}

#[test]
fn rejects_empty_subject() {
    let r = parse(&vec![id("for"), p(';'), id("match"), id("i32"), ob(), cb()]);
    assert_eq!(r, Err(ParseError { kind: ParseErrorKind::EmptySubject, pos: 1 }));
}

#[test]
fn rejects_unbalanced_open_in_body() {
    // for x; match i32 { ( — the body never closes.
    let input = vec![id("for"), id("x"), p(';'), id("match"), id("i32"), ob(), op()];
    let r = parse(&input);
    assert_eq!(r, Err(ParseError { kind: ParseErrorKind::UnbalancedDelimiter, pos: 7 }));
}

#[test]
fn rejects_stray_close_in_subject() {
    let input = vec![id("for"), cp(), p(';')];
    let r = parse(&input);
    assert_eq!(r, Err(ParseError { kind: ParseErrorKind::UnbalancedDelimiter, pos: 1 }));
}

#[test]
fn rejects_mismatched_close() {
    // for x; match i32 { ( ] } — `]` closes nothing that is open.
    let input = vec![
        id("for"),
        id("x"),
        p(';'),
        id("match"),
        id("i32"),
        ob(),
        op(),
        cbr(),
        cb(),
    ];
    let r = parse(&input);
    assert_eq!(r, Err(ParseError { kind: ParseErrorKind::UnbalancedDelimiter, pos: 7 }));
}

#[test]
fn rejects_empty_type_pattern() {
    let r = parse(&vec![id("for"), id("x"), p(';'), id("match"), ob(), cb()]);
    assert_eq!(r, Err(ParseError { kind: ParseErrorKind::EmptyTypePattern, pos: 4 }));
}

#[test]
fn rejects_empty_return_type() {
    let input = vec![
        id("for"),
        id("x"),
        p(';'),
        id("match"),
        id("i32"),
        pj('-'),
        p('>'),
        ob(),
        cb(),
    ];
    let r = parse(&input);
    assert_eq!(r, Err(ParseError { kind: ParseErrorKind::EmptyReturnType, pos: 7 }));
}

#[test]
fn rejects_unclosed_generics() {
    let r = parse(&vec![id("for"), id("x"), p(';'), id("match"), p('<'), id("T")]);
    assert_eq!(r, Err(ParseError { kind: ParseErrorKind::MalformedGenerics, pos: 6 }));
}

#[test]
fn rejects_garbage_between_arms() {
    // for x; match i32 { } i64 — trailing tokens are no arm.
    let input = vec![
        id("for"),
        id("x"),
        p(';'),
        id("match"),
        id("i32"),
        ob(),
        cb(),
        id("i64"),
    ];
    let r = parse(&input);
    assert_eq!(r, Err(ParseError { kind: ParseErrorKind::ExpectedMatch, pos: 7 }));
}

#[test]
fn refs_shared_and_mutable() {
    assert_eq!(refs(3, false), vec![p('&'), p('&'), p('&')]);
    assert_eq!(refs(2, true), vec![p('&'), id("mut"), p('&'), id("mut")]);
    assert_eq!(refs(0, false), vec![]);
}

#[test]
fn generates_single_named_arm_block() {
    // for x = 1 + 1; match i32 -> i32 { x }
    let input = vec![
        id("for"),
        id("x"),
        p('='),
        lit("1"),
        p('+'),
        lit("1"),
        p(';'),
        id("match"),
        id("i32"),
        pj('-'),
        p('>'),
        id("i32"),
        ob(),
        id("x"),
        cb(),
    ];
    let args = parse(&input).unwrap();
    let out = spez_impl(&args);

    let mut expected = vec![ob()];
    expected.extend(holder_decl());
    expected.extend(trait_decl("Match1"));
    // One arm of one: its implementation sits at depth 0, no reference.
    expected.extend(vec![
        id("impl"),
        id("Match1"),
        id("for"),
        id("Match"),
        p('<'),
        id("i32"),
        p('>'),
        ob(),
        id("type"),
        id("Return"),
        p('='),
        id("i32"),
        p(';'),
    ]);
    expected.extend(spez_fn_header());
    expected.extend(prologue("x"));
    expected.push(id("x"));
    expected.push(cb());
    expected.push(cb());
    // The call wraps the subject in the full single layer.
    expected.extend(call_expr(vec![p('&')], vec![lit("1"), p('+'), lit("1")]));
    expected.push(cb());

    assert_eq!(out, expected);
}

#[test]
fn generates_decreasing_depths_for_two_arms() {
    // for y; match i32 { } match i64 { } — anonymous subject, default
    // return types; arm 1 sits one reference deep, arm 2 at depth zero,
    // and the call carries two layers.
    let input = vec![
        id("for"),
        id("y"),
        p(';'),
        id("match"),
        id("i32"),
        ob(),
        cb(),
        id("match"),
        id("i64"),
        ob(),
        cb(),
    ];
    let args = parse(&input).unwrap();
    let out = spez_impl(&args);

    let mut expected = vec![ob()];
    expected.extend(holder_decl());
    expected.extend(trait_decl("Match1"));
    expected.extend(vec![
        id("impl"),
        id("Match1"),
        id("for"),
        p('&'),
        id("Match"),
        p('<'),
        id("i32"),
        p('>'),
        ob(),
        id("type"),
        id("Return"),
        p('='),
        op(),
        cp(),
        p(';'),
    ]);
    expected.extend(spez_fn_header());
    expected.push(cb());
    expected.push(cb());
    expected.extend(trait_decl("Match2"));
    expected.extend(vec![
        id("impl"),
        id("Match2"),
        id("for"),
        id("Match"),
        p('<'),
        id("i64"),
        p('>'),
        ob(),
        id("type"),
        id("Return"),
        p('='),
        op(),
        cp(),
        p(';'),
    ]);
    expected.extend(spez_fn_header());
    expected.push(cb());
    expected.push(cb());
    expected.extend(call_expr(vec![p('&'), p('&')], vec![id("y")]));
    expected.push(cb());

    assert_eq!(out, expected);
}

#[test]
fn generates_generics_and_where_clause() {
    // for v; match<T> T where T: Increment { } — the arm's generics and
    // constraints are substituted into the implementation.
    let input = vec![
        id("for"),
        id("v"),
        p(';'),
        id("match"),
        p('<'),
        id("T"),
        p('>'),
        id("T"),
        id("where"),
        id("T"),
        p(':'),
        id("Increment"),
        ob(),
        cb(),
    ];
    let args = parse(&input).unwrap();
    let out = spez_impl(&args);

    let mut expected = vec![ob()];
    expected.extend(holder_decl());
    expected.extend(trait_decl("Match1"));
    expected.extend(vec![
        id("impl"),
        p('<'),
        id("T"),
        p('>'),
        id("Match1"),
        id("for"),
        id("Match"),
        p('<'),
        id("T"),
        p('>'),
        id("where"),
        id("T"),
        p(':'),
        id("Increment"),
        ob(),
        id("type"),
        id("Return"),
        p('='),
        op(),
        cp(),
        p(';'),
    ]);
    expected.extend(spez_fn_header());
    expected.push(cb());
    expected.push(cb());
    expected.extend(call_expr(vec![p('&')], vec![id("v")]));
    expected.push(cb());

    assert_eq!(out, expected);
}

#[test]
fn generates_mutable_layers_for_mutable_subject() {
    // for x = &mut obj; match<T> T { } — every indirection layer is `&mut`.
    let input = vec![
        id("for"),
        id("x"),
        p('='),
        p('&'),
        id("mut"),
        id("obj"),
        p(';'),
        id("match"),
        p('<'),
        id("T"),
        p('>'),
        id("T"),
        ob(),
        cb(),
    ];
    let args = parse(&input).unwrap();
    let out = spez_impl(&args);
    // One arm: its implementation carries no layer, the call carries one
    // mutable layer around the holder.
    let call = call_expr(vec![p('&'), id("mut")], vec![p('&'), id("mut"), id("obj")]);
    let call_at = out.len() - 1 - call.len();
    assert_eq!(&out[call_at..out.len() - 1], &call[..]);
}

#[test]
fn anonymous_subject_generates_no_take() {
    let named = vec![
        id("for"),
        id("x"),
        p('='),
        id("y"),
        p(';'),
        id("match"),
        id("i32"),
        ob(),
        cb(),
    ];
    let anon = vec![id("for"), id("y"), p(';'), id("match"), id("i32"), ob(), cb()];
    let out_named = spez_impl(&parse(&named).unwrap());
    let out_anon = spez_impl(&parse(&anon).unwrap());
    let takes = |v: &Vec<Tok>| v.iter().filter(|t| **t == id("take")).count();
    assert_eq!(takes(&out_named), 1);
    assert_eq!(takes(&out_anon), 0);
}

#[test]
fn subject_expression_appears_once() {
    // A recognizable literal subject stands exactly once in the block,
    // whatever the arm count.
    let input = vec![
        id("for"),
        lit("12345"),
        p(';'),
        id("match"),
        id("i32"),
        ob(),
        cb(),
        id("match"),
        id("i64"),
        ob(),
        cb(),
        id("match"),
        id("u8"),
        ob(),
        cb(),
    ];
    let out = spez_impl(&parse(&input).unwrap());
    let occurrences = out.iter().filter(|t| **t == lit("12345")).count();
    assert_eq!(occurrences, 1);
}

#[test]
fn trait_names_count_past_ten_arms() {
    let mut arms = Vec::new();
    for _ in 0..12 {
        arms.push(Arm {
            generics: None,
            ty: vec![id("i32")],
            where_clause: None,
            return_type: None,
            body: vec![],
        });
    }
    let args = Args { name: None, expr: vec![id("z")], arms };
    let out = spez_impl(&args);
    assert!(out.contains(&id("Match1")));
    assert!(out.contains(&id("Match10")));
    assert!(out.contains(&id("Match12")));
    assert!(!out.contains(&id("Match13")));
}

#[test]
fn slot_yields_its_value_exactly_once() {
    let mut s = Slot::new(7u32);
    assert_eq!(s.take(), Some(7));
    assert_eq!(s.take(), None);
}

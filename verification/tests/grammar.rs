use rainbow_core::frontend::{Pair, RainbowGrammar, Rule};

fn pair(rule: Rule, start: usize, end: usize, inner: Vec<Pair>) -> Pair {
    Pair { rule, start, end, inner }
}

fn leaf(rule: Rule, start: usize, end: usize) -> Pair {
    pair(rule, start, end, vec![])
}

fn parses_to(rule: Rule, input: &str, expected: Pair) {
    assert_eq!(RainbowGrammar::parse(rule, input), Some(expected));
}

#[test]
fn test_parse_variables() {
    let variables = vec!["foo", "_neato", "foo_bar", "FooBar"];
    for input in variables.into_iter() {
        parses_to(
            Rule::term,
            input,
            pair(Rule::variable, 0, input.len(), vec![leaf(Rule::ident, 0, input.len())]),
        );

        let separators = vec![".", " .", ". ", " . "];
        for sep in separators.into_iter() {
            let path = vec![String::from(input), String::from(input), String::from(input)].join(sep);

            parses_to(
                Rule::term,
                &path,
                pair(
                    Rule::variable,
                    0,
                    path.len(),
                    vec![
                        leaf(Rule::ident, 0, input.len()),
                        leaf(Rule::ident, input.len() + sep.len(), input.len() * 2 + sep.len()),
                        leaf(Rule::ident, input.len() * 2 + sep.len() * 2, path.len()),
                    ],
                ),
            );
        }
    }
}

#[test]
fn test_parse_keyword() {
    parses_to(Rule::keyword, "foo:", leaf(Rule::keyword, 0, 4));
}

#[test]
fn test_parse_numbers() {
    let numbers = vec!["1", "1000", "1.5", "1.6e10", "1.6e-10", "100_000"];

    for input in numbers.iter() {
        parses_to(Rule::term, input, leaf(Rule::number, 0, input.len()));
    }
}

#[test]
fn test_parse_larger() {
    let src = "each: offices do: { office => [
            name = get_name: office
            employees = each: office.employees do: { e => get_name: e }
        ] }";
    let expected = pair(
        Rule::apply,
        0,
        src.len(),
        vec![
            pair(
                Rule::argument,
                0,
                14,
                vec![
                    leaf(Rule::keyword, 0, 5),
                    pair(Rule::variable, 6, 14, vec![leaf(Rule::ident, 6, 13)]),
                ],
            ),
            pair(
                Rule::argument,
                14,
                src.len(),
                vec![
                    leaf(Rule::keyword, 14, 17),
                    pair(
                        Rule::block,
                        18,
                        src.len(),
                        vec![
                            pair(Rule::block_args, 20, 29, vec![leaf(Rule::ident, 20, 26)]),
                            pair(
                                Rule::record,
                                30,
                                src.len() - 2,
                                vec![
                                    pair(
                                        Rule::entry,
                                        44,
                                        80,
                                        vec![
                                            leaf(Rule::ident, 44, 48),
                                            pair(
                                                Rule::apply,
                                                51,
                                                80,
                                                vec![pair(
                                                    Rule::argument,
                                                    51,
                                                    80,
                                                    vec![
                                                        leaf(Rule::keyword, 51, 60),
                                                        pair(
                                                            Rule::variable,
                                                            61,
                                                            80,
                                                            vec![leaf(Rule::ident, 61, 67)],
                                                        ),
                                                    ],
                                                )],
                                            ),
                                        ],
                                    ),
                                    pair(
                                        Rule::entry,
                                        80,
                                        139,
                                        vec![
                                            leaf(Rule::ident, 80, 89),
                                            pair(
                                                Rule::apply,
                                                92,
                                                139,
                                                vec![
                                                    pair(
                                                        Rule::argument,
                                                        92,
                                                        114,
                                                        vec![
                                                            leaf(Rule::keyword, 92, 97),
                                                            pair(
                                                                Rule::variable,
                                                                98,
                                                                114,
                                                                vec![
                                                                    leaf(Rule::ident, 98, 104),
                                                                    leaf(Rule::ident, 105, 114),
                                                                ],
                                                            ),
                                                        ],
                                                    ),
                                                    pair(
                                                        Rule::argument,
                                                        115,
                                                        139,
                                                        vec![
                                                            leaf(Rule::keyword, 115, 118),
                                                            pair(
                                                                Rule::block,
                                                                119,
                                                                139,
                                                                vec![
                                                                    pair(
                                                                        Rule::block_args,
                                                                        121,
                                                                        125,
                                                                        vec![leaf(
                                                                            Rule::ident,
                                                                            121,
                                                                            122,
                                                                        )],
                                                                    ),
                                                                    pair(
                                                                        Rule::apply,
                                                                        126,
                                                                        138,
                                                                        vec![pair(
                                                                            Rule::argument,
                                                                            126,
                                                                            138,
                                                                            vec![
                                                                                leaf(
                                                                                    Rule::keyword,
                                                                                    126,
                                                                                    135,
                                                                                ),
                                                                                pair(
                                                                                    Rule::variable,
                                                                                    136,
                                                                                    138,
                                                                                    vec![leaf(
                                                                                        Rule::ident,
                                                                                        136,
                                                                                        137,
                                                                                    )],
                                                                                ),
                                                                            ],
                                                                        )],
                                                                    ),
                                                                ],
                                                            ),
                                                        ],
                                                    ),
                                                ],
                                            ),
                                        ],
                                    ),
                                ],
                            ),
                        ],
                    ),
                ],
            ),
        ],
    );
    parses_to(Rule::term, src, expected);
}

#[test]
fn parse_bool_is_not_a_variable() {
    parses_to(Rule::term, "true", leaf(Rule::bool, 0, 4));
    parses_to(Rule::term, "false", leaf(Rule::bool, 0, 5));
    parses_to(
        Rule::term,
        "truth",
        pair(Rule::variable, 0, 5, vec![leaf(Rule::ident, 0, 5)]),
    );
}

#[test]
fn parse_string_and_list() {
    parses_to(Rule::term, "\"hi there\"", leaf(Rule::string, 0, 10));
    parses_to(
        Rule::term,
        "[ 1 2 ]",
        pair(
            Rule::list,
            0,
            7,
            vec![leaf(Rule::number, 2, 3), leaf(Rule::number, 4, 5)],
        ),
    );
    parses_to(Rule::term, "[]", pair(Rule::list, 0, 2, vec![]));
}

#[test]
fn parse_rejects_what_is_no_term() {
    assert_eq!(RainbowGrammar::parse(Rule::term, ""), None);
    assert_eq!(RainbowGrammar::parse(Rule::term, " foo"), None);
    assert_eq!(RainbowGrammar::parse(Rule::term, "]"), None);
    assert_eq!(RainbowGrammar::parse(Rule::term, "\"open"), None);
}

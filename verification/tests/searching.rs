use acervo::compile::{compile, matcher_for_term, regex_matcher, replacement_matcher, search_matchers};
use acervo::inspection::name_passes;
use acervo::matchers::{SearchMatcher, SearchMatchers};
use acervo::occurrences::count_ascii_case_insensitive;
use acervo::request::SearchRequest;
use acervo::search::validate;
use acervo::wildcard::wildcard_regex;

fn request(query: &str) -> SearchRequest {
    SearchRequest {
        directory: ".".into(),
        query: query.into(),
        mode: "content".into(),
        use_regex: false,
        case_sensitive: false,
        whole_word: false,
        include_hidden: false,
        include_subfolders: true,
        pre_count: false,
        file_pattern: "*".into(),
        min_size: None,
        max_size: None,
        min_modified: None,
        max_modified: None,
    }
}

fn passes(patterns: &str, name: &str) -> bool {
    name_passes(&wildcard_regex(patterns).unwrap(), name)
}

#[test]
fn supports_wildcards() {
    let filter = wildcard_regex("*.txt; *.md").unwrap().unwrap();
    assert!(filter.is_match(b"relatorio.TXT"));
    assert!(filter.is_match(b"notas.md"));
    assert!(!filter.is_match(b"foto.png"));
}

#[test]
fn creates_case_insensitive_literal_matcher() {
    let req = SearchRequest {
        directory: ".".into(),
        query: "Pesquisa".into(),
        mode: "content".into(),
        use_regex: false,
        case_sensitive: false,
        whole_word: false,
        include_hidden: false,
        include_subfolders: true,
        pre_count: false,
        file_pattern: "*".into(),
        min_size: None,
        max_size: None,
        min_modified: None,
        max_modified: None,
    };
    assert!(regex_matcher(&req)
        .unwrap()
        .is_match("uma PESQUISA rápida".as_bytes()));
}

#[test]
fn optimized_literal_counts_without_regex() {
    let req = SearchRequest {
        directory: ".".into(),
        query: "<matricula>123</matricula>".into(),
        mode: "content".into(),
        use_regex: false,
        case_sensitive: false,
        whole_word: false,
        include_hidden: false,
        include_subfolders: true,
        pre_count: false,
        file_pattern: "*.xml".into(),
        min_size: None,
        max_size: None,
        min_modified: None,
        max_modified: None,
    };
    let matcher = search_matchers(&req).unwrap();
    assert_eq!(
        matcher.count(b"<MATRICULA>123</MATRICULA><matricula>123</matricula>"),
        2
    );
    assert!(matches!(matcher, SearchMatchers::Literals(_)));
}

#[test]
fn searches_multiple_terms_from_separate_lines() {
    let req = SearchRequest {
        directory: ".".into(),
        query: "111.111.111-11\n\n222.222.222-22\n111.111.111-11".into(),
        mode: "content".into(),
        use_regex: false,
        case_sensitive: false,
        whole_word: false,
        include_hidden: false,
        include_subfolders: true,
        pre_count: false,
        file_pattern: "*".into(),
        min_size: None,
        max_size: None,
        min_modified: None,
        max_modified: None,
    };
    let matchers = search_matchers(&req).unwrap();
    assert!(matches!(&matchers, SearchMatchers::Literals(value) if value.patterns_len() == 2));
    assert_eq!(matchers.count(b"111.111.111-11 e 222.222.222-22"), 2);
    assert_eq!(matchers.matching_terms(b"arquivo-222.222.222-22.xml"), 1);
}

#[test]
fn the_term_that_ends_first_is_reported() {
    let matchers = search_matchers(&request("abcd\nbc")).unwrap();
    assert_eq!(matchers.count(b"abcd"), 1);
    assert_eq!(matchers.matching_terms(b"abcd"), 1);
    assert_eq!(matchers.count(b"abd abcd bc"), 2);
    let prefixes = search_matchers(&request("ab\nabc")).unwrap();
    assert_eq!(prefixes.matching_terms(b"abc"), 1);
}

#[test]
fn of_terms_that_end_together_the_longest_is_reported() {
    let matchers = search_matchers(&request("c\nabc")).unwrap();
    assert_eq!(matchers.count(b"abcc"), 2);
    assert_eq!(matchers.matching_terms(b"abcc"), 2);
    assert_eq!(matchers.matching_terms(b"abc"), 1);
}

#[test]
fn of_terms_that_differ_in_case_the_first_is_reported() {
    let matchers = search_matchers(&request("A\na")).unwrap();
    assert!(matches!(&matchers, SearchMatchers::Literals(value) if value.patterns_len() == 2));
    assert_eq!(matchers.count(b"a A a"), 3);
    assert_eq!(matchers.matching_terms(b"a A a"), 1);
}

#[test]
fn case_matters_where_it_is_regarded() {
    let mut req = request("Nota");
    req.case_sensitive = true;
    let matchers = search_matchers(&req).unwrap();
    assert_eq!(matchers.count(b"nota Nota NOTA Nota"), 2);
    req.query = "ação".into();
    let accented = search_matchers(&req).unwrap();
    assert!(matches!(accented, SearchMatchers::Literals(_)));
    assert_eq!(accented.count("ação AÇÃO".as_bytes()), 1);
}

#[test]
fn terms_outside_of_ascii_are_expressions_where_case_is_ignored() {
    let matchers = search_matchers(&request("ação\nnota")).unwrap();
    match &matchers {
        SearchMatchers::Expressions(list) => {
            assert_eq!(list.len(), 2);
            assert!(matches!(list[0], SearchMatcher::Regex(_)));
            assert!(
                matches!(&list[1], SearchMatcher::Literal { needle, case_sensitive: false }
                    if needle == b"nota")
            );
        }
        SearchMatchers::Literals(_) => panic!("expressions expected"),
    }
    let text = "AÇÃO e ação e NOTA".as_bytes();
    assert_eq!(matchers.try_count(text), Some(3));
    assert_eq!(matchers.count(text), 3);
    assert_eq!(matchers.matching_terms(text), 2);
    assert_eq!(matchers.matching_terms(b"nada"), 0);
}

#[test]
fn whole_words_are_bounded() {
    let mut req = request("casa");
    req.whole_word = true;
    let matchers = search_matchers(&req).unwrap();
    assert!(matches!(matchers, SearchMatchers::Expressions(_)));
    assert_eq!(matchers.count(b"casa casas CASA descasa"), 2);
    req.query = "a|b".into();
    assert_eq!(search_matchers(&req).unwrap().count(b"a b a|b"), 1);
}

#[test]
fn expressions_count_their_matches() {
    let mut req = request("a+\nx*");
    req.use_regex = true;
    req.case_sensitive = true;
    let matchers = search_matchers(&req).unwrap();
    assert_eq!(matchers.count(b"aa b"), 1 + 5);
    match &matchers {
        SearchMatchers::Expressions(list) => {
            assert_eq!(list[0].count(b"aa b aaa"), 2);
            assert!(!list[0].is_match(b"b"));
            assert_eq!(list[1].count(b"ab"), 3);
        }
        SearchMatchers::Literals(_) => panic!("expressions expected"),
    }
}

#[test]
fn invalid_expressions_are_told() {
    let mut req = request("(");
    req.use_regex = true;
    let message = search_matchers(&req).err().unwrap();
    assert!(message.starts_with("Expressão inválida: "));
    assert!(message.len() > "Expressão inválida: ".len());
    assert_eq!(regex_matcher(&req).err().unwrap(), message);
    assert!(replacement_matcher(&req)
        .err()
        .unwrap()
        .starts_with("Expressão inválida: "));
    assert!(matcher_for_term(&req, "[")
        .err()
        .unwrap()
        .starts_with("Expressão inválida: "));
}

#[test]
fn plain_text_is_not_read_as_an_expression() {
    let regex = regex_matcher(&request("(a.b)*")).unwrap();
    assert!(regex.is_match(b"f(A.B)*"));
    assert!(!regex.is_match(b"axb"));
    assert_eq!(
        regex_matcher(&request("#&-~ \\.+*?()|[]{}^$")).unwrap().as_str(),
        "\\#\\&\\-\\~ \\\\\\.\\+\\*\\?\\(\\)\\|\\[\\]\\{\\}\\^\\$"
    );
}

#[test]
fn one_matcher_is_made_for_one_term() {
    let req = request("");
    let literal = matcher_for_term(&req, "Nota").unwrap();
    assert_eq!(literal.count(b"nota NOTA not"), 2);
    assert!(literal.is_match(b"uma nota"));
    assert!(!literal.is_match(b"not"));
    let mut sensitive = request("");
    sensitive.case_sensitive = true;
    let exact = matcher_for_term(&sensitive, "aa").unwrap();
    assert_eq!(exact.count(b"aaaa Aa aaa"), 3);
    assert!(exact.is_match(b"baab"));
    assert!(!exact.is_match(b"Aa"));
    let empty = matcher_for_term(&sensitive, "").unwrap();
    assert_eq!(empty.count(b"abc"), 4);
    assert!(empty.is_match(b""));
    let blank = matcher_for_term(&req, "").unwrap();
    assert_eq!(blank.count(b"abc"), 0);
    assert!(!blank.is_match(b"abc"));
}

#[test]
fn occurrences_are_counted_without_overlap() {
    assert_eq!(count_ascii_case_insensitive(b"aAaAa", b"aa"), 2);
    assert_eq!(count_ascii_case_insensitive(b"ABCabcAbC", b"abc"), 3);
    assert_eq!(count_ascii_case_insensitive(b"x1X1x2", b"X1"), 2);
    assert_eq!(count_ascii_case_insensitive(b"1-1-1", b"1-1"), 1);
    assert_eq!(count_ascii_case_insensitive(b"abc", b""), 0);
    assert_eq!(count_ascii_case_insensitive(b"ab", b"abc"), 0);
    assert_eq!(count_ascii_case_insensitive(b"[@", b"{`"), 0);
    assert_eq!(
        count_ascii_case_insensitive("É é".as_bytes(), "é".as_bytes()),
        1
    );
}

#[test]
fn the_fast_path_counts_what_the_expression_counts() {
    let req = request("");
    let text = b"aa AAA baab aBa";
    for term in ["a", "aa", "ab", "b a", "zz"] {
        let mut one = request(term);
        let fast = matcher_for_term(&req, term).unwrap();
        let slow = SearchMatcher::Regex(regex_matcher(&one).unwrap());
        assert_eq!(fast.count(text), slow.count(text));
        assert_eq!(fast.is_match(text), slow.is_match(text));
        assert_eq!(fast.count(text), search_matchers(&one).unwrap().count(text));
        one.case_sensitive = true;
        let exact = matcher_for_term(&one, term).unwrap();
        let slow = SearchMatcher::Regex(regex_matcher(&one).unwrap());
        assert_eq!(exact.count(text), slow.count(text));
    }
}

#[test]
fn counts_of_matches_and_terms_agree() {
    let matchers = search_matchers(&request("um\ndois\ntrês")).unwrap();
    for text in ["um", "um dois um", "", "TRÊS", "nada"] {
        let bytes = text.as_bytes();
        assert_eq!(
            matchers.count(bytes) > 0,
            matchers.matching_terms(bytes) > 0
        );
        assert!(matchers.matching_terms(bytes) <= 3);
        assert!(matchers.matching_terms(bytes) <= matchers.count(bytes));
    }
}

#[test]
fn blank_and_repeated_lines_add_no_terms() {
    let terms = |query: &str| match search_matchers(&request(query)).unwrap() {
        SearchMatchers::Literals(value) => value.patterns_len(),
        SearchMatchers::Expressions(list) => list.len(),
    };
    assert_eq!(terms("um\ndois"), 2);
    assert_eq!(terms("um\ndois\n"), 2);
    assert_eq!(terms("um\ndois\n   \n"), 2);
    assert_eq!(terms("um\ndois\n um\t"), 2);
    assert_eq!(terms("um\r\ndois\r\num\r\n"), 2);
    assert_eq!(terms("um\ndois\ntres"), 3);
    assert_eq!(terms(" \n\t\r\n"), 0);
}

#[test]
fn counting_gives_a_number_where_there_is_one() {
    let text = "um ação é um".as_bytes();
    for query in ["um", "ação\né", "ação\num\n?"] {
        let matchers = search_matchers(&request(query)).unwrap();
        assert_eq!(matchers.try_count(text), Some(matchers.count(text)));
    }
    let mut req = request("");
    req.use_regex = true;
    assert_eq!(search_matchers(&req).unwrap().try_count(text), Some(0));
}

#[test]
fn names_are_selected_by_pattern() {
    assert!(passes("*.xml", "nota.XML"));
    assert!(!passes("*.xml", "nota.xml.bak"));
    assert!(passes("nota?.txt", "nota1.txt"));
    assert!(!passes("nota?.txt", "nota.txt"));
    assert!(passes("n*a.txt", "NA.txt"));
    assert!(passes("?.txt", "é.txt"));
    assert!(passes("*.txt", "relatório.txt"));
    assert!(passes("a.b", "A.B"));
    assert!(!passes("a.b", "axb"));
    assert!(passes(" *.txt ,, *.md ;", "x.md"));
    assert!(passes("k*", "\u{212a}elvin"));
    assert!(passes("*s", "\u{17f}"));
    assert!(!passes("?", "ab"));
    assert!(passes("[a]*(1)", "[A]x(1)"));
}

#[test]
fn every_name_passes_without_patterns() {
    for patterns in ["", "*", " * ; * ", ",;", " "] {
        assert!(wildcard_regex(patterns).unwrap().is_none());
        assert!(passes(patterns, "qualquer.coisa"));
    }
    assert!(!passes("*; *.txt", "foto.png"));
}

#[test]
fn a_filter_is_written_as_one_expression() {
    let filter = wildcard_regex("*.txt; a?b").unwrap().unwrap();
    assert_eq!(filter.as_str(), "^(?:(?:.*\\.txt)|(?:a.b))$");
    let backslash = wildcard_regex("a\\*").unwrap().unwrap();
    assert_eq!(backslash.as_str(), "^(?:(?:a\\\\.*))$");
}

#[test]
fn a_filter_that_is_too_large_is_told() {
    let patterns = "?".repeat(300_000);
    let message = wildcard_regex(&patterns).err().unwrap();
    assert!(!message.is_empty());
    assert!(!message.starts_with("Expressão"));
    let mut req = request("nota");
    req.file_pattern = patterns;
    assert_eq!(validate(&req, true).err().unwrap(), message);
}

#[test]
fn requests_are_validated() {
    let req = request("nota");
    assert_eq!(
        validate(&req, false).err().unwrap(),
        "Selecione um diretório válido."
    );
    assert_eq!(
        validate(&request(" \n\t\n"), true).err().unwrap(),
        "Digite o texto que deseja pesquisar."
    );
    let mut broken = request("[");
    broken.use_regex = true;
    assert!(validate(&broken, true)
        .err()
        .unwrap()
        .starts_with("Expressão inválida: "));
    let mut filtered = request("nota");
    filtered.file_pattern = "*.txt".into();
    let (matchers, filter) = validate(&filtered, true).ok().unwrap();
    assert_eq!(matchers.count(b"Nota nota"), 2);
    assert!(filter.unwrap().is_match(b"a.txt"));
    assert!(validate(&req, true).ok().unwrap().1.is_none());
}

#[test]
fn what_is_found_as_a_word_is_found_as_a_text() {
    for (text, words, texts) in [
        ("casa", 1, 1),
        ("casas", 0, 1),
        ("a-casa_b", 0, 1),
        ("a-casa.b casa", 2, 2),
        ("Casa1 CASA", 1, 2),
        ("", 0, 0),
    ] {
        let mut req = request("casa");
        let plain = search_matchers(&req).unwrap();
        req.whole_word = true;
        let whole = search_matchers(&req).unwrap();
        assert_eq!(whole.count(text.as_bytes()), words);
        assert_eq!(plain.count(text.as_bytes()), texts);
        assert!(words == 0 || texts > 0);
    }
}

#[test]
fn the_first_refused_term_is_told() {
    let told = |query: &str| {
        let mut req = request(query);
        req.use_regex = true;
        search_matchers(&req).err().unwrap()
    };
    assert_eq!(told("a\n[b\n(c"), told("[b"));
    assert_eq!(told("(c\n[b"), told("(c"));
    assert_ne!(told("(c"), told("[b"));
}

#[test]
fn the_query_is_refused_before_the_patterns() {
    let mut req = request("(");
    req.use_regex = true;
    let message = validate(&req, true).err().unwrap();
    req.file_pattern = "?".repeat(300_000);
    assert_eq!(validate(&req, true).err().unwrap(), message);
}

#[test]
fn lines_are_searched_alike_whatever_surrounds_them() {
    let text = b"um dois UM tres dois";
    let plain = search_matchers(&request("um\ndois")).unwrap();
    for query in [
        "um\n\ndois",
        "\n  \t\num\ndois\n",
        " um\t\n\u{a0}dois ",
        "um\r\ndois\r\n",
        "um\num\ndois\n um \ndois",
        "\r\n um\n\n\tum\ndois",
    ] {
        let answer = search_matchers(&request(query));
        assert!(answer.is_ok());
        let matchers = answer.unwrap();
        assert_eq!(matchers.count(text), plain.count(text));
        assert_eq!(matchers.matching_terms(text), plain.matching_terms(text));
    }
}

#[test]
fn refusals_tell_what_is_wrong_or_that_it_is_too_large() {
    assert_eq!(compile("a+", true, "x: ").unwrap().as_str(), "a+");
    let flaw = compile("a(", true, "x: ").err().unwrap();
    assert!(flaw.starts_with("x: ") && flaw.contains("unclosed group"));
    let excess = compile("(?:\\w{1000}){1000}", true, "x: ").err().unwrap();
    assert_eq!(
        excess,
        "x: Compiled regex exceeds size limit of 10485760 bytes."
    );
}

#[test]
fn plain_text_is_always_valid() {
    for query in ["(", "[a", "*", "a{2", "\\", "(?i", "é("] {
        let mut req = request(query);
        req.whole_word = true;
        assert!(search_matchers(&req).is_ok());
        assert!(replacement_matcher(&req).is_ok());
        assert!(regex_matcher(&req).is_ok());
        assert!(wildcard_regex(query).is_ok());
    }
}

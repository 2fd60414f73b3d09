use egrep::repeticion_regex_token::RepeticionRegexToken;

#[test]
fn creacion_de_repeticion_token() {
    let min = None;
    let max = Some(1);
    let rep = RepeticionRegexToken::new(min, max);

    assert_eq!(RepeticionRegexToken { min, max }, rep);
}

#[test]
fn obtener_min_max_repeticion() {
    let min = None;
    let max = Some(1);
    let rep = RepeticionRegexToken::new(min, max);

    assert_eq!(min, rep.min());
    assert_eq!(max, rep.max());
}

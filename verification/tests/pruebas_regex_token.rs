use egrep::regex_token::RegexToken;
use egrep::repeticion_regex_token::RepeticionRegexToken;
use egrep::valor_regex_token::ValorRegexToken;

#[test]
fn creacion_de_token() {
    let valor = ValorRegexToken::Comodin;
    let repeticion = RepeticionRegexToken::new(Some(1), Some(1));

    let token = RegexToken::new(
        ValorRegexToken::Comodin,
        RepeticionRegexToken::new(Some(1), Some(1)),
    );

    assert_eq!(
        RegexToken {
            valor,
            repeticion,
            repeticion_modificable: true
        },
        token
    );
}

#[test]
fn puedo_modificar_repeticion_nuevo_token() {
    let min_inicial = Some(1);
    let max_inicial = Some(1);
    let repeticion = RepeticionRegexToken::new(min_inicial, max_inicial);
    let mut token = RegexToken::new(ValorRegexToken::Comodin, repeticion);

    let min_nuevo = None;
    let max_nuevo = None;
    let nueva_repeticion = RepeticionRegexToken::new(min_nuevo, max_nuevo);
    let modifico = token.modificar_repeticion(nueva_repeticion);

    assert_ne!(min_inicial, token.min_repeticiones());
    assert_ne!(max_inicial, token.max_repeticiones());

    assert_eq!(min_nuevo, token.min_repeticiones());
    assert_eq!(max_nuevo, token.max_repeticiones());

    assert!(modifico);
}

#[test]
fn un_anclaje_nace_bloqueado() {
    let mut token = RegexToken::new(
        ValorRegexToken::AnclajeInicio,
        RepeticionRegexToken::new(Some(0), Some(0)),
    );

    assert!(!token.repeticion_modificable);
    assert!(!token.modificar_repeticion(RepeticionRegexToken::new(None, None)));
    assert_eq!(token.min_repeticiones(), Some(0));
    assert_eq!(token.max_repeticiones(), Some(0));
}

#[test]
fn la_modificacion_bloquea_el_token() {
    let mut token = RegexToken::new(
        ValorRegexToken::Literal('a'),
        RepeticionRegexToken::new(Some(1), Some(1)),
    );

    assert!(token.modificar_repeticion(RepeticionRegexToken::new(Some(2), Some(3))));
    assert!(!token.modificar_repeticion(RepeticionRegexToken::new(None, None)));
    assert_eq!(token.min_repeticiones(), Some(2));
    assert_eq!(token.max_repeticiones(), Some(3));
}

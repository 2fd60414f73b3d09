use egrep::clase_caracter::ClaseCaracter;
use egrep::error_expresion_bracket::ErrorExpresionBracket;
use egrep::expresion_bracket::nuevo_token_expresion_bracket;
use egrep::iterador_vec::IteradorVecHaciaAtras;
use egrep::regex_token::RegexToken;
use egrep::repeticion_regex_token::RepeticionRegexToken;
use egrep::valor_regex_token::ValorRegexToken;

#[test]
fn error_bracket_no_cierra() {
    let v = vec!['5', ',', '1', ' '];
    let mut iter_chars = IteradorVecHaciaAtras::new(&v);
    let resultado = nuevo_token_expresion_bracket(&mut iter_chars);

    assert_eq!(Err(ErrorExpresionBracket::BracketNoMatchea), resultado)
}

#[test]
fn error_bracket_sin_contenido() {
    let v = vec![']'];
    let mut iter_chars = IteradorVecHaciaAtras::new(&v);
    let resultado = nuevo_token_expresion_bracket(&mut iter_chars);

    assert_eq!(Err(ErrorExpresionBracket::BracketNoMatchea), resultado)
}

#[test]
fn error_sintaxis_clase_caracter() {
    let v = vec![':', 's', 'p', 'a', 'c', 'e', ':', ']'];
    let mut iter_chars = IteradorVecHaciaAtras::new(&v);
    let resultado = nuevo_token_expresion_bracket(&mut iter_chars);

    assert_eq!(Err(ErrorExpresionBracket::SintaxisClaseInvalida), resultado)
}

#[test]
fn error_nombre_clase_caracter() {
    let v = vec!['[', ':', 's', 'p', 'a', 'c', ':', ']', ']'];
    let mut iter_chars = IteradorVecHaciaAtras::new(&v);
    let resultado = nuevo_token_expresion_bracket(&mut iter_chars);

    assert_eq!(Err(ErrorExpresionBracket::NombreClaseInvalido), resultado)
}

#[test]
fn obtengo_token_con_clases_caracter() {
    let v = vec![
        'a', 'b', '[', ':', 's', 'p', 'a', 'c', 'e', ':', ']', 'c', ']',
    ];
    let mut iter_chars = IteradorVecHaciaAtras::new(&v);

    let resultado = nuevo_token_expresion_bracket(&mut iter_chars).unwrap();
    let valor = ValorRegexToken::ExpresionBracket(vec![
        ClaseCaracter::Literal('a'),
        ClaseCaracter::Literal('b'),
        ClaseCaracter::Espacio,
        ClaseCaracter::Literal('c'),
    ]);
    let repeticion = RepeticionRegexToken::new(Some(1), Some(1));

    assert_eq!(RegexToken::new(valor, repeticion), resultado);
}

#[test]
fn obtengo_token_con_expresion_negada() {
    let v = vec![
        '^', 'a', 'b', '[', ':', 's', 'p', 'a', 'c', 'e', ':', ']', 'c', ']',
    ];
    let mut iter_chars = IteradorVecHaciaAtras::new(&v);

    let resultado = nuevo_token_expresion_bracket(&mut iter_chars).unwrap();
    let valor = ValorRegexToken::ExpresionBracketNegada(vec![
        ClaseCaracter::Literal('a'),
        ClaseCaracter::Literal('b'),
        ClaseCaracter::Espacio,
        ClaseCaracter::Literal('c'),
    ]);
    let repeticion = RepeticionRegexToken::new(Some(1), Some(1));

    assert_eq!(RegexToken::new(valor, repeticion), resultado);
}

use egrep::clase_caracter::ClaseCaracter;
use egrep::valor_regex_token::{
    ValorRegexToken, matchear_con_anclaje, matchear_con_comodin, matchear_con_expresion_bracket,
    matchear_con_expresion_bracket_negada, matchear_con_literal,
};

#[test]
fn literal_matchea_con_valor() {
    let valor_que_matchea = "lddf";
    let valor_que_no_matchea = "ddf";
    let literal = 'l';

    let result1 = matchear_con_literal(literal, valor_que_matchea);
    let result2 = matchear_con_literal(literal, valor_que_no_matchea);

    assert_eq!(result1, literal.len_utf8());
    assert_eq!(result2, 0)
}

#[test]
fn comodin_matchea_con_todo() {
    let valor = "ddf";
    let primera_letra_valor = 'd';

    let result = matchear_con_comodin(valor);

    assert_eq!(result, primera_letra_valor.len_utf8());
}

#[test]
fn anclaje_no_matchea_con_nada() {
    let result = matchear_con_anclaje();

    assert_eq!(result, 0);
}

#[test]
fn bracket_expresion_matchea_con_valor() {
    let valor = "#ddf";
    let primer_caracter_valor = '#';
    let clases_caracteres_que_matchean = vec![ClaseCaracter::Literal('#')];
    let clases_caracteres_que_no_matchean =
        vec![ClaseCaracter::Literal('?'), ClaseCaracter::Alfabetico];

    let result1 = matchear_con_expresion_bracket(&clases_caracteres_que_matchean, valor);
    let result2 = matchear_con_expresion_bracket(&clases_caracteres_que_no_matchean, valor);

    assert_eq!(result1, primer_caracter_valor.len_utf8());
    assert_eq!(result2, 0);
}

#[test]
fn bracket_expresion_negada_matchea_con_valor() {
    let valor = "#ddf";
    let primer_caracter_valor = '#';
    let clases_caracteres_que_no_matchean = vec![ClaseCaracter::Literal('#')];
    let clases_caracteres_que_matchean =
        vec![ClaseCaracter::Literal('?'), ClaseCaracter::Alfabetico];

    let result1 = matchear_con_expresion_bracket(&clases_caracteres_que_matchean, valor);
    let result2 = matchear_con_expresion_bracket(&clases_caracteres_que_no_matchean, valor);

    assert_eq!(result1, 0);
    assert_eq!(result2, primer_caracter_valor.len_utf8());
}

#[test]
fn matcheo_del_valor_de_un_token() {
    assert_eq!(ValorRegexToken::Literal('a').matchea("abc"), 1);
    assert_eq!(ValorRegexToken::Literal('a').matchea("xbc"), 0);
    assert_eq!(ValorRegexToken::Comodin.matchea("abc"), 1);
    assert_eq!(ValorRegexToken::Comodin.matchea(""), 0);
    assert_eq!(ValorRegexToken::AnclajeInicio.matchea("abc"), 0);
    assert_eq!(ValorRegexToken::AnclajeFinal.matchea("abc"), 0);
    assert_eq!(
        matchear_con_expresion_bracket_negada(&vec![ClaseCaracter::Literal('a')], ""),
        0
    );
}

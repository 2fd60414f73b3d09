use egrep::clase_caracter::ClaseCaracter;
use egrep::clase_caracter::{
    matchear_con_alfabetico, matchear_con_alfanumerico, matchear_con_digito, matchear_con_espacio,
    matchear_con_literal, matchear_con_mayuscula, matchear_con_minuscula, matchear_con_puntuacion,
};
use egrep::error_expresion_bracket::ErrorExpresionBracket;

#[test]
fn creacion_de_clases() {
    let alnum = ClaseCaracter::new("alnum");
    let alpha = ClaseCaracter::new("alpha");
    let digit = ClaseCaracter::new("digit");
    let punct = ClaseCaracter::new("punct");
    let space = ClaseCaracter::new("space");
    let lower = ClaseCaracter::new("lower");
    let upper = ClaseCaracter::new("upper");
    let clase_inexistente = ClaseCaracter::new("clase_inexistente");

    assert_eq!(alnum, Ok(ClaseCaracter::Alfanumerico));
    assert_eq!(alpha, Ok(ClaseCaracter::Alfabetico));
    assert_eq!(digit, Ok(ClaseCaracter::Digito));
    assert_eq!(punct, Ok(ClaseCaracter::Puntuacion));
    assert_eq!(space, Ok(ClaseCaracter::Espacio));
    assert_eq!(lower, Ok(ClaseCaracter::Minuscula));
    assert_eq!(upper, Ok(ClaseCaracter::Mayuscula));
    assert_eq!(
        clase_inexistente,
        Err(ErrorExpresionBracket::NombreClaseInvalido)
    );
}

#[test]
fn matcheos_con_clases() {
    let valor = "abcd".chars().next().unwrap();

    assert_eq!(valor.len_utf8(), matchear_con_alfabetico(valor));
    assert_eq!(valor.len_utf8(), matchear_con_alfanumerico(valor));
    assert_eq!(0, matchear_con_digito(valor));
    assert_eq!(0, matchear_con_espacio(valor));
    assert_eq!(valor.len_utf8(), matchear_con_minuscula(valor));
    assert_eq!(0, matchear_con_mayuscula(valor));
    assert_eq!(0, matchear_con_puntuacion(valor));
}

#[test]
fn matcheo_de_clase_sobre_cadena() {
    assert_eq!(ClaseCaracter::Digito.matchea("7x"), 1);
    assert_eq!(ClaseCaracter::Digito.matchea("x7"), 0);
    assert_eq!(ClaseCaracter::Digito.matchea(""), 0);
    assert_eq!(ClaseCaracter::Literal('a').matchea("abc"), 1);
    assert_eq!(ClaseCaracter::Literal('b').matchea("abc"), 0);
    assert_eq!(ClaseCaracter::Espacio.matchea("\tx"), 1);
}

#[test]
fn matcheo_con_literal_multibyte() {
    let enie = '\u{00f1}';
    assert_eq!(matchear_con_literal(enie, enie), 2);
    assert_eq!(matchear_con_literal('a', enie), 0);
    assert_eq!(ClaseCaracter::Literal(enie).matchea("\u{00f1}andu"), 2);
}

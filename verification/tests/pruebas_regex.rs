use egrep::error_expresion_bracket::ErrorExpresionBracket;
use egrep::error_regex::ErrorRegex;
use egrep::regex::{ErrorCompilacion, Regex};

#[test]
fn error_al_querer_anadir_repeticion() {
    let resultado1 = Regex::new("hol{3}{5}a");
    let resultado2 = Regex::new("?hola");
    assert!(resultado1.is_err());
    assert!(resultado2.is_err());
}

#[test]
fn error_al_enviar_barra_invertida_al_final() {
    let resultado = Regex::new("hola\\");
    assert!(resultado.is_err());
}

#[test]
fn error_anclaje_inicio_en_medio() {
    let resultado = Regex::new("ho^la");
    assert!(resultado.is_err());
}

#[test]
fn errores_exactos_de_compilacion() {
    assert_eq!(
        Regex::new("hol{3}{5}a").unwrap_err(),
        ErrorCompilacion::Regex(ErrorRegex::RepeticionInvalida)
    );
    assert_eq!(
        Regex::new("?hola").unwrap_err(),
        ErrorCompilacion::Regex(ErrorRegex::RepeticionInvalida)
    );
    assert_eq!(
        Regex::new("hola\\").unwrap_err(),
        ErrorCompilacion::Regex(ErrorRegex::BarraInvertidaAlFinal)
    );
    assert_eq!(
        Regex::new("ho^la").unwrap_err(),
        ErrorCompilacion::Regex(ErrorRegex::ExpresionInvalidaAnclajeInicio)
    );
    assert_eq!(
        Regex::new("[ab").unwrap_err(),
        ErrorCompilacion::Bracket(ErrorExpresionBracket::BracketNoMatchea)
    );
    assert_eq!(
        Regex::new("[[:spac:]]").unwrap_err(),
        ErrorCompilacion::Bracket(ErrorExpresionBracket::NombreClaseInvalido)
    );
    assert_eq!(
        Regex::new("[:space:]").unwrap_err(),
        ErrorCompilacion::Bracket(ErrorExpresionBracket::SintaxisClaseInvalida)
    );
    assert_eq!(
        Regex::new("a{5,1}").unwrap_err(),
        ErrorCompilacion::Regex(ErrorRegex::ContenidoInvalidoRepeticion)
    );
}

#[test]
fn escenarios_de_matcheo() {
    assert!(Regex::new("ab.cd").unwrap().matchea("abxcd"));
    assert!(Regex::new("ab.*cd")
        .unwrap()
        .matchea("abasdahsdbhasbdhiasdbcddkfdjklfhsdfhj"));
    assert!(!Regex::new("a[bc]d").unwrap().matchea("aed"));
    assert!(!Regex::new("ab{2,4}cd").unwrap().matchea("abbbbbcd"));
    assert!(Regex::new("abc|de+f").unwrap().matchea("dfabc"));
    assert!(Regex::new("la [^aeiou] no es una vocal")
        .unwrap()
        .matchea("la x no es una vocal"));
    assert!(Regex::new("[[:digit:]] es un numero")
        .unwrap()
        .matchea("10 es un numero"));
    assert!(!Regex::new("es el fin$").unwrap().matchea("este es el fin "));
    assert!(!Regex::new("^grep").unwrap().matchea(" grep"));
    assert!(!Regex::new(".*e{10}").unwrap().matchea("eeeeeeeee"));
}

#[test]
fn una_llave_sin_rango_es_literal() {
    let regex = Regex::new("gre{hello").unwrap();

    assert!(regex.matchea("gre{hello"));
    assert!(regex.matchea("xxgre{helloxx"));
    assert!(!regex.matchea("grehello"));
}

#[test]
fn un_patron_multibyte_respeta_los_caracteres() {
    let regex = Regex::new("a.c").unwrap();

    assert!(regex.matchea("a\u{00f1}c"));
    assert!(regex.matchea("a\u{2603}c"));
    assert!(!regex.matchea("ac"));

    let enie = Regex::new("\u{00f1}u").unwrap();
    assert!(enie.matchea("\u{00f1}u"));
    assert!(!enie.matchea("nu"));
}

#[test]
fn mensajes_de_los_errores() {
    assert_eq!(
        ErrorRegex::BarraInvertidaAlFinal.mensaje(),
        "Barra invertida extra al final"
    );
    assert_eq!(
        ErrorExpresionBracket::BracketNoMatchea.mensaje(),
        "unmatched [, [^ or [:"
    );
}

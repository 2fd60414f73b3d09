use egrep::error_regex::ErrorRegex;
use egrep::iterador_vec::IteradorVecHaciaAtras;
use egrep::rango_repeticion::obtener_repeticion;
use egrep::repeticion_regex_token::RepeticionRegexToken;

#[test]
fn obtengo_repeticion_asterisco() {
    let v = Vec::new();
    let mut iter_chars = IteradorVecHaciaAtras::new(&v);

    let repeticion = obtener_repeticion('*', &mut iter_chars).unwrap().unwrap();

    assert_eq!(RepeticionRegexToken::new(None, None), repeticion);
}

#[test]
fn obtengo_repeticion_signo_pregunta() {
    let v = Vec::new();
    let mut iter_chars = IteradorVecHaciaAtras::new(&v);

    let repeticion = obtener_repeticion('?', &mut iter_chars).unwrap().unwrap();

    assert_eq!(RepeticionRegexToken::new(None, Some(1)), repeticion);
}

#[test]
fn obtengo_repeticion_signo_suma() {
    let v = Vec::new();
    let mut iter_chars = IteradorVecHaciaAtras::new(&v);

    let repeticion = obtener_repeticion('+', &mut iter_chars).unwrap().unwrap();

    assert_eq!(RepeticionRegexToken::new(Some(1), None), repeticion);
}

#[test]
fn obtengo_rango_mismos_extremos() {
    let v = vec!['1', '}'];
    let mut iter_chars = IteradorVecHaciaAtras::new(&v);

    let repeticion = obtener_repeticion('{', &mut iter_chars).unwrap().unwrap();

    assert_eq!(RepeticionRegexToken::new(Some(1), Some(1)), repeticion);
}

#[test]
fn obtengo_rango_distintos_extremos() {
    let v = vec!['1', ',', '5', '}'];
    let mut iter_chars = IteradorVecHaciaAtras::new(&v);

    let repeticion = obtener_repeticion('{', &mut iter_chars).unwrap().unwrap();

    assert_eq!(RepeticionRegexToken::new(Some(1), Some(5)), repeticion);
}

#[test]
fn obtengo_rango_sin_extremos() {
    let v1 = vec!['1', ',', '}'];
    let mut iter_chars1 = IteradorVecHaciaAtras::new(&v1);
    let v2 = vec![',', '5', '}'];
    let mut iter_chars2 = IteradorVecHaciaAtras::new(&v2);

    let repeticion1 = obtener_repeticion('{', &mut iter_chars1).unwrap().unwrap();
    let repeticion2 = obtener_repeticion('{', &mut iter_chars2).unwrap().unwrap();

    assert_eq!(RepeticionRegexToken::new(Some(1), None), repeticion1);
    assert_eq!(RepeticionRegexToken::new(None, Some(5)), repeticion2);
}

#[test]
fn no_obtengo_rango_con_llave_que_no_cierra_o_contenido_no_numerico() {
    let v1 = vec!['1', ',', 'n', '}'];
    let v2 = vec!['n', 'o', ' ', 'c', 'i', 'e', 'r', 'r', 'r', 'a'];
    let mut iter_chars1 = IteradorVecHaciaAtras::new(&v1);
    let mut iter_chars2 = IteradorVecHaciaAtras::new(&v2);

    let repeticion1 = obtener_repeticion('{', &mut iter_chars1).unwrap();
    let repeticion2 = obtener_repeticion('{', &mut iter_chars2).unwrap();

    assert_eq!(repeticion1, None);
    assert_eq!(repeticion2, None);
}

#[test]
fn error_con_rango_invalido() {
    let v1 = vec!['5', ',', '1', '}'];
    let mut iter_chars1 = IteradorVecHaciaAtras::new(&v1);
    let v2 = vec!['1', ',', '2', ',', '3', '}'];
    let mut iter_chars2 = IteradorVecHaciaAtras::new(&v2);

    let repeticion1 = obtener_repeticion('{', &mut iter_chars1);
    let repeticion2 = obtener_repeticion('{', &mut iter_chars2);

    assert_eq!(Err(ErrorRegex::ContenidoInvalidoRepeticion), repeticion1);
    assert_eq!(Err(ErrorRegex::ContenidoInvalidoRepeticion), repeticion2);
}

#[test]
fn un_numero_desbordante_se_trata_como_ilimitado() {
    let v: Vec<char> = "99999999999999999999999999}".chars().collect();
    let mut iter_chars = IteradorVecHaciaAtras::new(&v);

    let repeticion = obtener_repeticion('{', &mut iter_chars).unwrap().unwrap();

    assert_eq!(RepeticionRegexToken::new(None, None), repeticion);
}

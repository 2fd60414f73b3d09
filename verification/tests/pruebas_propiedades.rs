use egrep::regex::Regex;

#[test]
fn patron_vacio_matchea_todo() {
    let regex = Regex::new("").unwrap();

    assert!(regex.matchea(""));
    assert!(regex.matchea("a"));
    assert!(regex.matchea("cualquier cosa"));
}

#[test]
fn literal_es_subcadena() {
    let regex = Regex::new("ana").unwrap();

    assert!(regex.matchea("ana"));
    assert!(regex.matchea("banana"));
    assert!(regex.matchea("anaranjado"));
    assert!(!regex.matchea("an"));
    assert!(!regex.matchea("aan"));
    assert!(!regex.matchea(""));
}

#[test]
fn anclaje_inicial_es_prefijo() {
    let regex = Regex::new("^ana").unwrap();

    assert!(regex.matchea("ana"));
    assert!(regex.matchea("anaranjado"));
    assert!(!regex.matchea("banana"));
}

#[test]
fn anclaje_final_es_sufijo() {
    let regex = Regex::new("ana$").unwrap();

    assert!(regex.matchea("ana"));
    assert!(regex.matchea("banana"));
    assert!(!regex.matchea("anaranjado"));
}

#[test]
fn alternancia_es_disyuncion() {
    let juntos = Regex::new("ab|cd").unwrap();
    let lado_a = Regex::new("ab").unwrap();
    let lado_b = Regex::new("cd").unwrap();

    for s in ["ab", "cd", "xxabxx", "xxcdxx", "acbd", "", "a", "c"] {
        assert_eq!(
            juntos.matchea(s),
            lado_a.matchea(s) || lado_b.matchea(s),
            "discrepancia en {:?}",
            s
        );
    }
}

#[test]
fn bracket_y_negado_son_duales() {
    let directo = Regex::new("[abc]").unwrap();
    let negado = Regex::new("[^abc]").unwrap();

    for c in ["a", "b", "c", "x", "z", "0", "%"] {
        assert_eq!(directo.matchea(c), !negado.matchea(c), "discrepancia en {:?}", c);
    }
}

#[test]
fn cota_de_cuantificador() {
    let regex = Regex::new("a{2,3}").unwrap();

    assert!(!regex.matchea(""));
    assert!(!regex.matchea("a"));
    assert!(regex.matchea("aa"));
    assert!(regex.matchea("aaa"));
    assert!(regex.matchea("aaaa"));
    assert!(regex.matchea("baab"));
    assert!(!regex.matchea("abab"));
}

#[test]
fn compilar_dos_veces_da_el_mismo_comportamiento() {
    let primera = Regex::new("gr[ae]p|fin$").unwrap();
    let segunda = Regex::new("gr[ae]p|fin$").unwrap();

    for s in ["grap", "grep", "grip", "el fin", "fin ", ""] {
        assert_eq!(primera.matchea(s), segunda.matchea(s), "discrepancia en {:?}", s);
    }
}

#[test]
fn matchear_no_modifica_la_regex() {
    let regex = Regex::new("a+b").unwrap();

    assert!(regex.matchea("aab"));
    assert!(!regex.matchea("b"));
    assert!(regex.matchea("aab"));
    assert!(regex.matchea("xxab"));
}

use egrep::iterador_vec::IteradorVecHaciaAtras;

#[test]
fn itera_hacia_adelante_y_atras() {
    let v = vec![1, 2, 3, 4, 5];

    let mut iter = IteradorVecHaciaAtras::new(&v);

    assert_eq!(None, iter.prev());
    assert_eq!(Some(&1), iter.next());
    assert_eq!(Some(&2), iter.next());
    assert_eq!(Some(&3), iter.next());
    assert_eq!(Some(&4), iter.next());
    assert_eq!(Some(&5), iter.next());
    assert_eq!(Some(&4), iter.prev());
    assert_eq!(Some(&5), iter.next());
    assert_eq!(None, iter.next());
}

#[test]
fn retroceso_tras_el_final_revisita_el_ultimo() {
    let v = vec![1, 2];

    let mut iter = IteradorVecHaciaAtras::new(&v);

    assert_eq!(Some(&1), iter.next());
    assert_eq!(Some(&2), iter.next());
    assert_eq!(None, iter.next());
    assert_eq!(None, iter.next());
    assert_eq!(Some(&2), iter.prev());
    assert_eq!(Some(&1), iter.prev());
    assert_eq!(None, iter.prev());
    assert_eq!(None, iter.prev());
    assert_eq!(Some(&2), iter.next());
}

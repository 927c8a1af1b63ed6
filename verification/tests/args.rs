use vidyut_prakriya::args::Dhatu;

#[test]
fn dhatu_code_has_gana_and_number() {
    let d = Dhatu::new("BU", 1, None).with_number(1);
    assert_eq!(d.code(), "01.0001");
    let d = Dhatu::new("kfY", 10, None).with_number(467);
    assert_eq!(d.code(), "10.0467");
}

#[test]
fn dhatu_code_of_an_unknown_number() {
    let d = Dhatu::new("BU", 1, None);
    assert_eq!(d.code(), "01.0000");
}

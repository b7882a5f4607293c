use combo_notation::notation::{check_weight, convert_to_arrow, translate_inputs, translate_notation};

fn icons(v: &[&str]) -> Vec<String> {
    v.iter().map(|s| s.to_string()).collect()
}

#[test]
fn numeric_pad_digits() {
    let expected = [
        ('1', "default\\down-left.gif"),
        ('2', "default\\down.gif"),
        ('3', "default\\down-right.gif"),
        ('4', "default\\left.gif"),
        ('5', "default\\neutral.png"),
        ('6', "default\\right.gif"),
        ('7', "default\\up-left.gif"),
        ('8', "default\\up.gif"),
        ('9', "default\\up-right.gif"),
    ];
    for (c, icon) in expected {
        assert_eq!(convert_to_arrow(c), Some(icon.to_string()));
    }
}

#[test]
fn numeric_pad_zero_is_error() {
    assert_eq!(convert_to_arrow('0'), Some("default\\err.png".to_string()));
}

#[test]
fn numeric_pad_skips_non_digits() {
    for c in ['L', 'P', ' ', '\n', '+', 'x', 'é'] {
        assert_eq!(convert_to_arrow(c), None);
    }
}

#[test]
fn weight_then_button_fuses() {
    let mut append_next = false;
    let mut weight = None;
    let mut nl = false;
    assert_eq!(translate_inputs(&mut append_next, &mut weight, 'L', &mut nl), None);
    assert!(append_next);
    assert_eq!(weight, Some("l".to_string()));
    let r = translate_inputs(&mut append_next, &mut weight, 'P', &mut nl);
    assert_eq!(r, Some("Sg_lp.png".to_string()));
    assert!(!append_next);
    assert!(!nl);
}

#[test]
fn lowercase_weight_and_button() {
    let mut append_next = false;
    let mut weight = None;
    let mut nl = false;
    assert_eq!(translate_inputs(&mut append_next, &mut weight, 'h', &mut nl), None);
    assert_eq!(weight, Some("h".to_string()));
    let r = translate_inputs(&mut append_next, &mut weight, 'k', &mut nl);
    assert_eq!(r, Some("Sg_hk.png".to_string()));
}

#[test]
fn bare_button() {
    let mut append_next = false;
    let mut weight = None;
    let mut nl = false;
    let r = translate_inputs(&mut append_next, &mut weight, 'K', &mut nl);
    assert_eq!(r, Some("Sg_k.png".to_string()));
}

#[test]
fn markers_and_separators() {
    let mut append_next = false;
    let mut weight = None;
    let mut nl = false;
    let up = translate_inputs(&mut append_next, &mut weight, 'J', &mut nl);
    assert_eq!(up, Some("default\\up.gif".to_string()));
    let plus = translate_inputs(&mut append_next, &mut weight, '+', &mut nl);
    assert_eq!(plus, Some("default\\plus.png".to_string()));
    let tilde = translate_inputs(&mut append_next, &mut weight, '~', &mut nl);
    assert_eq!(tilde, Some("default\\plus.png".to_string()));
    let space = translate_inputs(&mut append_next, &mut weight, ' ', &mut nl);
    assert_eq!(space, Some("default\\space.png".to_string()));
    assert!(!nl);
    let newline = translate_inputs(&mut append_next, &mut weight, '\n', &mut nl);
    assert_eq!(newline, Some("default\\space.png".to_string()));
    assert!(nl);
    let other = translate_inputs(&mut append_next, &mut weight, 'Q', &mut nl);
    assert_eq!(other, Some("default\\err.png".to_string()));
}

#[test]
fn jump_keeps_pending_weight() {
    let mut append_next = false;
    let mut weight = None;
    let mut nl = false;
    translate_inputs(&mut append_next, &mut weight, 'M', &mut nl);
    translate_inputs(&mut append_next, &mut weight, 'J', &mut nl);
    assert!(append_next);
    let r = translate_inputs(&mut append_next, &mut weight, 'P', &mut nl);
    assert_eq!(r, Some("Sg_mp.png".to_string()));
}

#[test]
fn check_weight_consumes_flag() {
    let mut append_next = true;
    let weight = Some("m".to_string());
    assert_eq!(check_weight(&mut append_next, &weight, 'K'), Some("Sg_mk.png".to_string()));
    assert!(!append_next);
    assert_eq!(check_weight(&mut append_next, &weight, 'K'), Some("Sg_k.png".to_string()));
}

#[test]
fn fold_light_punch_is_one_token() {
    assert_eq!(translate_notation("LP"), vec![icons(&["Sg_lp.png"])]);
}

#[test]
fn fold_bare_punch() {
    assert_eq!(translate_notation("P"), vec![icons(&["Sg_p.png"])]);
}

#[test]
fn fold_dangling_weight_is_dropped() {
    assert_eq!(translate_notation("L "), vec![icons(&["default\\space.png"])]);
    assert_eq!(translate_notation("H"), vec![icons(&[])]);
}

#[test]
fn fold_digits_before_letters() {
    assert_eq!(
        translate_notation("2MK 236HP"),
        vec![icons(&[
            "default\\down.gif",
            "Sg_mk.png",
            "default\\space.png",
            "default\\down.gif",
            "default\\down-right.gif",
            "default\\right.gif",
            "Sg_hp.png",
        ])]
    );
}

#[test]
fn fold_splits_lines() {
    assert_eq!(
        translate_notation("jLK\n5P~X"),
        vec![
            icons(&["default\\up.gif", "Sg_lk.png", "default\\space.png"]),
            icons(&["default\\neutral.png", "Sg_p.png", "default\\plus.png", "default\\err.png"]),
        ]
    );
}

#[test]
fn fold_empty_text() {
    assert_eq!(translate_notation(""), vec![icons(&[])]);
}

use docker_check::config::ApplyTo;

#[test]
fn apply_to_test() {
    let mut v = Vec::new();
    let mut apply_to = ApplyTo::from_vec(&v).unwrap();
    assert!(apply_to.should_filter_images() == false);
    assert!(apply_to.mask() == 0b0000_0000);
    v.push("image".to_string());
    apply_to = ApplyTo::from_vec(&v).unwrap();
    println!("hha. {:#08b}, res: {}", apply_to.mask(), apply_to.match_bit(6));
    assert!(apply_to.should_filter_images() == true);
    assert!(apply_to.mask() == 0b0000_0010);
    v.push("name".to_string());
    apply_to = ApplyTo::from_vec(&v).unwrap();
    assert!(apply_to.should_filter_images() == true);
    assert!(apply_to.should_filter_names() == true);
    assert!(apply_to.mask() == 0b0000_0011);
    v.remove(0);
    v.push("label".to_string());
    apply_to = ApplyTo::from_vec(&v).unwrap();
    assert!(apply_to.should_filter_names() == true);
    assert!(apply_to.should_filter_labels() == true);
}

#[test]
fn mask_folds_all_three_categories() {
    let v = vec!["name".to_string(), "image".to_string(), "label".to_string()];
    let apply_to = ApplyTo::from_vec(&v).unwrap();
    assert!(apply_to.should_filter_names());
    assert!(apply_to.should_filter_images());
    assert!(apply_to.should_filter_labels());
    assert_eq!(apply_to.mask(), 0b0000_0111);
}

#[test]
fn mask_duplicate_tokens_are_idempotent() {
    let twice = vec!["name".to_string(), "name".to_string()];
    let once = vec!["name".to_string()];
    assert_eq!(
        ApplyTo::from_vec(&twice).unwrap().mask(),
        ApplyTo::from_vec(&once).unwrap().mask()
    );
}

#[test]
fn mask_ignores_unrecognized_tokens() {
    let v = vec!["name".to_string(), "bogus".to_string()];
    let apply_to = ApplyTo::from_vec(&v).unwrap();
    assert_eq!(apply_to.mask(), 0b0000_0001);
    let only_bogus = vec!["volume".to_string(), "".to_string()];
    assert_eq!(ApplyTo::from_vec(&only_bogus).unwrap().mask(), 0);
}

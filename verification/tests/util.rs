use simple_socket::util::{operation_name, operation_name_at, SimpleSocketOperation};

#[test]
fn operation_names_at_a_time() {
    assert_eq!(
        operation_name_at(SimpleSocketOperation::Subscribe, 1_700_000_000_000, 3),
        "Subscribe_1700000000000_3"
    );
    assert_eq!(operation_name_at(SimpleSocketOperation::EditSub, 0, 0), "EditSub_0_0");
    assert_eq!(operation_name_at(SimpleSocketOperation::CloseSub, 5, 12), "CloseSub_5_12");
    assert_eq!(operation_name_at(SimpleSocketOperation::Connect, 5, 12), "Connect_5_12");
    assert_eq!(operation_name_at(SimpleSocketOperation::DefaultConfig, 5, 12), "DefaultConfig_5_12");
    assert_eq!(operation_name_at(SimpleSocketOperation::DisPub, 5, 12), "DisPub_5_12");
    assert_eq!(operation_name_at(SimpleSocketOperation::Publish, 5, 12), "Publish_5_12");
}

#[test]
fn operation_name_now() {
    let s = operation_name(SimpleSocketOperation::Connect, 4).expect("clock after the epoch");
    assert!(s.starts_with("Connect_"));
    assert!(s.ends_with("_4"));
    let millis: u128 = s["Connect_".len()..s.len() - 2].parse().unwrap();
    assert!(millis > 1_600_000_000_000);
}

#[test]
fn label_splits_back_into_its_parts() {
    let s = operation_name_at(SimpleSocketOperation::DefaultConfig, 1_725_029_869_000, 77);
    let parts: Vec<&str> = s.split('_').collect();
    assert_eq!(parts.len(), 3);
    assert_eq!(parts[0], "DefaultConfig");
    assert_eq!(parts[1].parse::<u128>(), Ok(1_725_029_869_000));
    assert_eq!(parts[2].parse::<usize>(), Ok(77));
}

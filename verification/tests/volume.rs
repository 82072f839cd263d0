use replay_rs::volume::Volume;

#[test]
fn numbers_as_they_are_printed_are_gains() {
    for number in [0.0, -0.0, 1.0, 0.5, 0.1 + 0.2, -2.25, 1e-7, 1e21, 123.456, f64::MAX, 5e-324] {
        let text = number.to_string();
        let volume = Volume::parse(&text);
        assert_eq!(volume.unwrap().as_str(), text, "{text}");
    }
}

#[test]
fn other_text_is_no_gain() {
    for text in [
        "", "-", ".", "1.", ".5", "01", "-01", "1.0", "1.50", "1e3", "inf", "NaN", "+1", "1 ",
        "1.2.3", "1 ! fakesink", "0x1", "--1", "1,5",
    ] {
        assert!(Volume::parse(text).is_none(), "{text:?}");
    }
}

#[test]
fn gains_are_the_same_as_their_numbers_are() {
    let numbers = [0.0, -0.0, 1.0, -1.0, 0.5, 5.0, 50.0, 0.05];
    for a in numbers {
        for b in numbers {
            let (x, y) = (Volume::parse(&a.to_string()).unwrap(), Volume::parse(&b.to_string()).unwrap());
            assert_eq!(x.same_as(&y), a == b, "{a} {b}");
        }
    }
    assert_eq!(Volume::default().as_str(), "1");
    assert_eq!(Volume::default().clone().as_str(), "1");
}

use ascii_basing::decoding::decode;
use ascii_basing::encoding::{encode, push_encoded};

#[test]
fn encode_premade() {
    let numbers = [0, u32::MAX];
    let representations = [String::from("0"), String::from("4GFfc3")];
    //minimum and maximum
    let mut looper: usize = 0;
    while looper < numbers.len() {
        if let Ok(encoded) = encode(numbers[looper], None) {
            assert_eq!(encoded, representations[looper]);
            if let Ok(decoded) = decode(encoded.chars()) {
                assert_eq!(numbers[looper], decoded);
            } else {
                panic!(
                    "encoded value {} didn't decode to the same value it was before encoding",
                    looper
                );
            }
        } else {
            panic!(
                "the encode function threw an error when it was passed {}, a test case that should've encoded to \"{}\"",
                numbers[looper], representations[looper]
            );
        }
        looper += 1;
    }
}

#[test]
fn encode_automatically() {
    let mut numbers: Vec<u32> = Vec::with_capacity(5 * 2 + 1);
    let mut representations: Vec<String> = Vec::with_capacity(5 * 2 + 1);
    let mut under = String::with_capacity(5);
    let mut over = String::with_capacity(6);
    let mut power: u64 = 62;
    over.push('1');
    representations.push(over.clone());
    numbers.push(1);
    loop {
        match under.len() {
            0 => {
                numbers.push(61);
                numbers.push(62);
            },
            _ => {
                let new_value = numbers
                    .get(numbers.len() - 2)
                    .expect("There's an issue with the automatic generation of values for this test")
                    + 61 * (power as u32);
                numbers.push(new_value);
                numbers.push(new_value + 1);
                power *= 62;
            },
        }
        under.push('Z');
        over.push('0');
        if over.len() > 5 {
            break;
        } else {
            representations.push(under.clone());
            representations.push(over.clone());
        }
    }
    representations.push(under);
    representations.push(over);
    let mut test_looper: usize = 0;
    while test_looper < numbers.len() {
        let latest_rep = representations
            .get(test_looper)
            .expect("Fewer String representations were generated than numbers to encode");
        if let Ok(encoded) = encode(*numbers.get(test_looper).unwrap(), Some(test_looper / 2 + 1)) {
            assert_eq!(encoded, *latest_rep);
            if let Ok(decoded) = decode(encoded.chars()) {
                assert_eq!(*numbers.get(test_looper).unwrap(), decoded);
            } else {
                panic!(
                    "encoded value {} didn't decode to the same value it was before encoding",
                    test_looper
                );
            }
        } else {
            panic!(
                "the encode function threw an error when it was passed {}, a test case that should've encoded to \"{}\"",
                numbers.get(test_looper).unwrap(),
                latest_rep
            );
        }
        test_looper += 1;
    }
}

#[test]
fn round_trip_samples() {
    let samples: [u32; 16] = [
        0,
        1,
        9,
        10,
        35,
        36,
        61,
        62,
        3843,
        3844,
        200481,
        238327,
        238328,
        916132831,
        916132832,
        u32::MAX,
    ];
    for value in samples {
        let encoded = encode(value, None).unwrap();
        let decoded = decode(encoded.chars()).unwrap();
        assert_eq!(value, decoded);
    }
}

#[test]
fn canonical_zero() {
    assert_eq!(String::from("0"), encode(0, None).unwrap());
    assert_eq!(String::from("0"), encode(0, Some(17)).unwrap());
    assert_eq!(1, encode(0, Some(1)).unwrap().len());
}

#[test]
fn maximum_length() {
    let encoded = encode(u32::MAX, None).unwrap();
    assert_eq!(String::from("4GFfc3"), encoded);
    assert_eq!(6, encoded.len());
}

#[test]
fn no_leading_zero() {
    let mut value: u32 = 1;
    while value < 1000000 {
        let encoded = encode(value, None).unwrap();
        assert!(!encoded.starts_with('0'));
        value = value * 3 + 1;
    }
}

#[test]
fn alphabet_closure() {
    let alphabet = "0123456789abcdefghijklmnopqrstuvwxyzABCDEFGHIJKLMNOPQRSTUVWXYZ";
    let mut value: u32 = 0;
    while value < 10000000 {
        let encoded = encode(value, None).unwrap();
        for symbol in encoded.chars() {
            assert!(alphabet.contains(symbol));
        }
        value = value * 7 + 1;
    }
    assert!(decode("1@".chars()).is_err());
    assert!(decode("Q9z!".chars()).is_err());
    assert!(decode(" ".chars()).is_err());
    assert!(decode("é".chars()).is_err());
}

#[test]
fn decoding_error_message() {
    let problem = decode("1@".chars()).unwrap_err();
    assert_eq!(
        "characters in the string passed to decode should only contain characters 0-9, a-z, and/or Z-A",
        problem.message()
    );
}

#[test]
fn monotonic_length() {
    let boundaries: [(u32, usize); 10] = [
        (61, 1),
        (62, 2),
        (3843, 2),
        (3844, 3),
        (238327, 3),
        (238328, 4),
        (14776335, 4),
        (14776336, 5),
        (916132831, 5),
        (916132832, 6),
    ];
    for (value, length) in boundaries {
        assert_eq!(length, encode(value, None).unwrap().len());
    }
    let mut previous: usize = encode(0, None).unwrap().len();
    let mut value: u32 = 1;
    while value < 100000000 {
        let current = encode(value, None).unwrap().len();
        assert!(previous <= current);
        previous = current;
        value = value * 2 + 1;
    }
}

#[test]
fn concrete_vectors() {
    assert_eq!(String::from("Q9z"), encode(200481, Some(3)).unwrap());
    assert_eq!(200481, decode("Q9z".chars()).unwrap());
    assert_eq!(String::from("Z"), encode(61, None).unwrap());
    assert_eq!(String::from("10"), encode(62, None).unwrap());
}

#[test]
fn empty_input_asymmetry() {
    assert_eq!(0, decode("".chars()).unwrap());
    assert_ne!(String::new(), encode(0, None).unwrap());
}

#[test]
fn push_encoded_appends() {
    let medium_number = 35 * 62 * 62 + 52 * 62 + 9; // = 137773
    let mut prefix = String::with_capacity(4);
    prefix.push('_');
    push_encoded(medium_number, &mut prefix).unwrap();
    assert_eq!(String::from("_zQ9"), prefix);
    let mut empty = String::new();
    push_encoded(0, &mut empty).unwrap();
    assert_eq!(String::from("0"), empty);
}

#[test]
fn decode_accepts_leading_zeros() {
    assert_eq!(200481, decode("0Q9z".chars()).unwrap());
    assert_eq!(250, decode("00000000000042".chars()).unwrap());
}

#[test]
fn decode_wraps_beyond_u32() {
    // "4GFfc3" spells u32::MAX; one and two past it wrap around to 0 and 1.
    assert_eq!(0, decode("4GFfc4".chars()).unwrap());
    assert_eq!(1, decode("4GFfc5".chars()).unwrap());
}

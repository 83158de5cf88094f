use stfcm::numbers::rank_of_number;
use stfcm::elevation::Elevation;
use stfcm::passes::predict_passes;
use stfcm::passes::PassWindow;
use stfcm::time::Instant;

const ANGLES: [f64; 14] = [
    f64::NEG_INFINITY,
    -90.0,
    -10.5,
    -1e-300,
    -5e-324,
    -0.0,
    0.0,
    5e-324,
    1e-300,
    9.999999999999998,
    10.0,
    10.000000000000002,
    90.0,
    f64::INFINITY,
];

#[test]
fn ranks_of_known_numbers() {
    assert_eq!(rank_of_number(0), Some(0));
    assert_eq!(rank_of_number(0x8000_0000_0000_0000), Some(0));
    assert_eq!(rank_of_number(1), Some(1));
    assert_eq!(rank_of_number(0x8000_0000_0000_0001), Some(-1));
    assert_eq!(rank_of_number(10.0f64.to_bits()), Some(0x4024_0000_0000_0000));
    assert_eq!(rank_of_number((-90.0f64).to_bits()), Some(-0x4056_8000_0000_0000));
    assert_eq!(rank_of_number(f64::INFINITY.to_bits()), Some(0x7FF0_0000_0000_0000));
    assert_eq!(rank_of_number(f64::NEG_INFINITY.to_bits()), Some(-0x7FF0_0000_0000_0000));
    assert_eq!(rank_of_number(f64::NAN.to_bits()), None);
    assert_eq!(rank_of_number(0x7FF0_0000_0000_0001), None);
    assert_eq!(rank_of_number(0xFFF0_0000_0000_0001), None);
    assert_eq!(rank_of_number(u64::MAX), None);
}

#[test]
fn ranks_order_as_angles_do() {
    for a in ANGLES.iter() {
        for b in ANGLES.iter() {
            let ra = Elevation::of_reading(a.to_bits()).rank;
            let rb = Elevation::of_reading(b.to_bits()).rank;
            let tb = Elevation::of_threshold(b.to_bits()).rank;
            assert_eq!(ra >= rb, a >= b, "{} >= {}", a, b);
            assert_eq!(ra > rb, a > b, "{} > {}", a, b);
            assert_eq!(ra >= tb, a >= b, "{} reaches {}", a, b);
        }
    }
}

#[test]
fn what_is_not_a_number_is_never_visible() {
    let nan = f64::NAN.to_bits();
    assert_eq!(Elevation::of_reading(nan).rank, i64::MIN);
    assert_eq!(Elevation::of_threshold(nan).rank, i64::MAX);
    for a in ANGLES.iter() {
        assert!(Elevation::of_reading(nan).rank < Elevation::of_threshold(a.to_bits()).rank);
        assert!(Elevation::of_reading(a.to_bits()).rank < Elevation::of_threshold(nan).rank);
    }
    assert!(Elevation::of_reading(nan).rank < Elevation::of_threshold(nan).rank);
    let start = Instant { seconds: 0, nanos: 0 };
    let readings = vec![
        Elevation::of_reading(nan),
        Elevation::of_reading(50.0f64.to_bits()),
        Elevation::of_reading(nan),
    ];
    let low = Elevation::of_threshold(f64::NEG_INFINITY.to_bits());
    assert_eq!(
        predict_passes(start, 1, 30, low, &readings),
        vec![PassWindow {
            start: Instant { seconds: 30, nanos: 0 },
            end: Instant { seconds: 60, nanos: 0 },
            max_elevation_deg: Elevation::of_reading(50.0f64.to_bits()),
        }]
    );
    assert!(predict_passes(start, 1, 30, Elevation::of_threshold(nan), &readings).is_empty());
}

#[test]
fn bits_are_found_again_from_ranks() {
    for a in ANGLES.iter() {
        let back = Elevation::of_reading(a.to_bits()).to_bits().unwrap();
        assert_eq!(f64::from_bits(back), *a);
        if a.to_bits() != (-0.0f64).to_bits() {
            assert_eq!(back, a.to_bits());
        } else {
            assert_eq!(back, 0);
        }
    }
    assert_eq!(Elevation { rank: i64::MIN }.to_bits(), None);
    assert_eq!(Elevation { rank: i64::MAX }.to_bits(), None);
    assert_eq!(Elevation { rank: 0x7FF0_0000_0000_0001 }.to_bits(), None);
    assert_eq!(Elevation { rank: -0x7FF0_0000_0000_0001 }.to_bits(), None);
    assert_eq!(Elevation { rank: -1 }.to_bits(), Some(0x8000_0000_0000_0001));
    assert_eq!(Elevation { rank: 0x7FF0_0000_0000_0000 }.to_bits(), Some(f64::INFINITY.to_bits()));
}

use velora::binary64::Binary64;
use velora::format::{format_size, format_speed};
use velora::pacing::{add_jitter, backoff, round_to_hundredths};
use velora::progress::{format_count, format_progress, percent};
use velora::speed::average_bps;

fn number(x: f64) -> Binary64 {
    Binary64 { bits: x.to_bits() }
}

struct Noise {
    state: u64,
}

impl Noise {
    fn next(&mut self) -> u64 {
        self.state ^= self.state << 13;
        self.state ^= self.state >> 7;
        self.state ^= self.state << 17;
        self.state
    }

    /// Finite non-negative numbers of every size.
    fn number(&mut self) -> f64 {
        loop {
            let bits = self.next() >> 1;
            let x = f64::from_bits(bits);
            if x.is_finite() {
                return x;
            }
        }
    }

    /// Numbers of ordinary size.
    fn ordinary(&mut self) -> f64 {
        let shift = self.next() % 64;
        let n = self.next() >> shift;
        let d = (self.next() % 1_000_000) + 1;
        n as f64 / d as f64
    }
}

#[test]
fn integers_round_as_the_machine_rounds_them() {
    let mut noise = Noise { state: 1 };
    for i in 0..20_000u64 {
        let n = noise.next() >> (i % 64);
        assert_eq!(Binary64::from_integer(n).bits, (n as f64).to_bits());
    }
    assert_eq!(Binary64::from_integer(0).bits, 0);
    assert_eq!(Binary64::from_integer(u64::MAX).bits, (u64::MAX as f64).to_bits());
    assert_eq!(Binary64::from_integer(9_007_199_254_740_993).bits, 9_007_199_254_740_992f64.to_bits());
}

#[test]
fn arithmetic_agrees_with_the_machine() {
    let mut noise = Noise { state: 7 };
    for i in 0..20_000u32 {
        let (x, y) = if i % 2 == 0 {
            (noise.number(), noise.number())
        } else {
            (noise.ordinary(), noise.ordinary())
        };
        let a = number(x);
        let b = number(y);
        assert_eq!(a.plus(b).bits, (x + y).to_bits());
        assert_eq!(a.times(b).bits, (x * y).to_bits());
        if y > 0.0 {
            assert_eq!(a.divided_by(b).bits, (x / y).to_bits());
        }
        if x >= y {
            assert_eq!(a.minus(b).bits, (x - y).to_bits());
        } else {
            assert_eq!(b.minus(a).bits, (y - x).to_bits());
        }
        assert_eq!(a.truncated(), x as u64);
        assert_eq!(a.rounded_half_up(), x.round() as u64);
        assert_eq!(a.at_least(b).bits, x.max(y).to_bits());
    }
}

#[test]
fn arithmetic_agrees_at_the_edges() {
    let edges = [
        0.0,
        5e-324,
        1e-323,
        2.2250738585072009e-308,
        2.2250738585072014e-308,
        4.450147717014403e-308,
        0.1,
        0.25,
        0.5,
        1.0,
        1.5,
        2.5,
        3.0,
        1e10,
        9007199254740991.0,
        9007199254740992.0,
        1.8446744073709552e19,
        1e300,
        1.7976931348623157e308,
    ];
    for &x in edges.iter() {
        for &y in edges.iter() {
            let a = number(x);
            let b = number(y);
            assert_eq!(a.plus(b).bits, (x + y).to_bits());
            assert_eq!(a.times(b).bits, (x * y).to_bits());
            if y > 0.0 {
                assert_eq!(a.divided_by(b).bits, (x / y).to_bits());
            }
            if x >= y {
                assert_eq!(a.minus(b).bits, (x - y).to_bits());
            }
        }
        assert_eq!(number(x).truncated(), x as u64);
        assert_eq!(number(x).rounded_half_up(), x.round() as u64);
    }
}

#[test]
fn what_is_no_positive_number_gives_way_to_the_floor() {
    let zero = Binary64::zero();
    assert_eq!(number(-1.5).at_least(zero), zero);
    assert_eq!(number(f64::NAN).at_least(number(2.0)), number(2.0));
    assert_eq!(number(3.0).at_least(number(2.0)), number(3.0));
    assert_eq!(number(1.0).at_least(number(2.0)), number(2.0));
    assert!(number(0.5).is_positive());
    assert!(!number(-0.5).is_positive());
    assert!(!number(0.0).is_positive());
    assert!(!number(f64::NAN).is_positive());
}

fn machine_size(bytes: i64) -> String {
    match bytes {
        b if b >= 1_073_741_824 => format!("{:.2}GB", b as f64 / 1_073_741_824.0),
        b if b >= 1_048_576 => format!("{:.1}MB", b as f64 / 1_048_576.0),
        b if b >= 1_024 => format!("{:.0}KB", b as f64 / 1_024.0),
        b => format!("{}B", b),
    }
}

fn machine_speed(bps: f64) -> String {
    if bps <= 0.0 {
        return "---".into();
    }
    if bps >= 1_048_576.0 {
        return format!("{:.2}MB/s", bps / 1_048_576.0);
    }
    if bps >= 1_024.0 {
        return format!("{:.0}KB/s", bps / 1_024.0);
    }
    format!("{:.0}B/s", bps)
}

#[test]
fn sizes_read_as_the_machine_writes_them() {
    let mut noise = Noise { state: 3 };
    for i in 0..20_000u64 {
        let n = (noise.next() >> (i % 64)) as i64;
        assert_eq!(format_size(n), machine_size(n));
    }
    for n in [0, 1, 1023, 1024, 1535, 1536, 1537, 2560, 1_048_575, 1_048_576, 1_073_741_823] {
        assert_eq!(format_size(n), machine_size(n));
    }
    assert_eq!(format_size(-5), "-5B");
    assert_eq!(format_size(i64::MIN), "-9223372036854775808B");
    assert_eq!(format_size(1536), "2KB");
    assert_eq!(format_size(2560), "2KB");
    assert_eq!(format_size(1_572_864), "1.5MB");
    assert_eq!(format_size(1_073_741_824), "1.00GB");
    assert_eq!(format_size(i64::MAX), machine_size(i64::MAX));
}

#[test]
fn speeds_read_as_the_machine_writes_them() {
    let mut noise = Noise { state: 11 };
    for i in 0..4_000u32 {
        let x = if i % 8 == 0 { noise.number() } else { noise.ordinary() };
        assert_eq!(format_speed(number(x)), machine_speed(x));
    }
    for x in [0.0, -0.0, -3.0, 0.5, 1.5, 2.5, 1023.5, 1024.0, 1536.0, 1048576.0, 1.7976931348623157e308] {
        assert_eq!(format_speed(number(x)), machine_speed(x));
    }
    assert_eq!(format_speed(number(f64::INFINITY)), machine_speed(f64::INFINITY));
    assert_eq!(format_speed(number(f64::NEG_INFINITY)), "---");
    assert_eq!(format_speed(number(f64::NAN)), machine_speed(f64::NAN));
    assert_eq!(format_speed(number(-f64::NAN)), machine_speed(-f64::NAN));
    assert_eq!(format_speed(number(1_572_864.0)), "1.50MB/s");
}

#[test]
fn percentages_agree_with_the_machine() {
    for total in 0..260usize {
        for processed in 0..=(total as u32 + 3) {
            let expected = if total > 0 {
                (processed as f64 / total as f64 * 100.0).round() as u32
            } else {
                100
            };
            assert_eq!(percent(processed, total), expected);
        }
    }
    // Halves that the machine's division pushes below the middle.
    assert_eq!(percent(29, 200), 14);
    assert_eq!(percent(u32::MAX, 1), u32::MAX);
    assert_eq!(percent(0, 7), 0);
    assert_eq!(percent(7, 7), 100);
}

#[test]
fn progress_tells_what_is_there_and_what_is_to_come() {
    let mut noise = Noise { state: 5 };
    for _ in 0..4_000u32 {
        let bytes = (noise.next() >> 20) as i64;
        let processed = (noise.next() % 50) as u32;
        let total = (noise.next() % 60) as usize;
        let estimated = if processed > 0 {
            ((bytes as f64 / processed as f64) * total as f64).max(bytes as f64) as i64
        } else {
            bytes
        };
        let expected = if estimated > 0 {
            format!("{}/{}", machine_size(bytes), machine_size(estimated))
        } else {
            machine_size(bytes)
        };
        assert_eq!(format_progress(bytes, processed, total), expected);
    }
    assert_eq!(format_progress(1024, 1, 4), "1KB/4KB");
    assert_eq!(format_progress(1024, 0, 4), "1KB/1KB");
    assert_eq!(format_progress(0, 2, 4), "0B");
    assert_eq!(format_progress(-7, 2, 4), "-7B");
    assert_eq!(format_progress(i64::MAX, 1, 1000), format!("{0}/{0}", machine_size(i64::MAX)));
    assert_eq!(format_count(3, 12), "3/12");
}

#[test]
fn averages_agree_with_the_machine() {
    let mut noise = Noise { state: 17 };
    for i in 0..4_000u64 {
        let total = noise.next() >> (i % 64);
        let ms = (noise.next() >> 40) + 1;
        assert_eq!(
            average_bps(total, ms).bits,
            (total as f64 / (ms as f64 / 1_000.0)).to_bits()
        );
    }
    assert_eq!(average_bps(5, 0).bits, 0);
}

#[test]
fn backoff_doubles_up_to_the_cap() {
    let base = number(1.0);
    let cap = number(30.0);
    let expected = [1.0, 2.0, 4.0, 8.0, 16.0, 30.0, 30.0];
    for (i, &x) in expected.iter().enumerate() {
        assert_eq!(backoff(i as u32 + 1, base, cap), number(x));
    }
    for attempt in 1..1200u32 {
        for &(b, c) in [(0.1, 30.0), (5e-324, 30.0), (1e-310, 1e300), (0.0, 4.0), (3.0, 3.0)].iter() {
            let factor = 2f64.powi(attempt as i32 - 1);
            let expected = (b * factor).min(c);
            assert_eq!(backoff(attempt, number(b), number(c)), number(expected));
        }
    }
    assert_eq!(backoff(u32::MAX, base, cap), cap);
}

#[test]
fn jitter_comes_on_top() {
    let mut noise = Noise { state: 23 };
    for _ in 0..4_000u32 {
        let delay = noise.ordinary();
        let jitter = noise.ordinary();
        let random = (noise.next() >> 11) as f64 / 9_007_199_254_740_992.0;
        let expected = if jitter > 0.0 { delay + random * jitter } else { delay };
        assert_eq!(add_jitter(number(delay), number(jitter), number(random)), number(expected));
        assert_eq!(
            round_to_hundredths(number(delay)),
            number((delay * 100.0).round() / 100.0)
        );
    }
    assert_eq!(add_jitter(number(2.0), number(0.0), number(0.7)), number(2.0));
    assert_eq!(round_to_hundredths(number(1.005)), number((1.005f64 * 100.0).round() / 100.0));
    assert_eq!(round_to_hundredths(number(1e18)), number((1e18f64 * 100.0).round() / 100.0));
    assert_eq!(round_to_hundredths(number(1.7e308)), number(f64::INFINITY));
}

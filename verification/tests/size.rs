use del::size::{humanized_size, tree_size_label};

/// The formatting that the sizes follow, written with floating point.
fn float_humanized(size: u64) -> String {
    const KIB: u64 = 1024;
    const MIB: u64 = 1024 * KIB;
    const GIB: u64 = 1024 * MIB;
    const TIB: u64 = 1024 * GIB;
    if size < KIB {
        format!("{size}B")
    } else if size < MIB {
        format!("{:.2}KiB", size as f64 / KIB as f64)
    } else if size < GIB {
        format!("{:.2}MiB", size as f64 / MIB as f64)
    } else if size < TIB {
        format!("{:.2}GiB", size as f64 / GIB as f64)
    } else {
        format!("{:.2}TiB", size as f64 / TIB as f64)
    }
}

fn float_tree_label(n: u64) -> String {
    let size = n as f64;
    const KIB: f64 = 1024.;
    const MIB: f64 = KIB * KIB;
    const GIB: f64 = MIB * KIB;
    const TIB: f64 = GIB * KIB;
    const PIB: f64 = TIB * KIB;
    let (size, format) = if size <= KIB {
        (size, "B")
    } else if size <= MIB {
        (size / KIB, "KiB")
    } else if size <= GIB {
        (size / MIB, "MiB")
    } else if size <= TIB {
        (size / GIB, "GiB")
    } else if size <= PIB {
        (size / TIB, "TiB")
    } else {
        (size / PIB, "PiB")
    };
    format!("{size:.2}{format}")
}

fn samples() -> Vec<u64> {
    let mut v: Vec<u64> = (0..5000).collect();
    for shift in 0..64 {
        let p = 1u64 << shift;
        for d in [0u64, 1, 2, 3, 511, 512, 513, 1023, 1024, 1025] {
            v.push(p.wrapping_add(d));
            v.push(p.wrapping_sub(d));
        }
    }
    let mut x: u64 = 0x9E37_79B9_7F4A_7C15;
    for _ in 0..20000 {
        x = x.wrapping_mul(6364136223846793005).wrapping_add(1442695040888963407);
        v.push(x >> (x % 64));
        v.push(x);
    }
    // values whose hundredths fall exactly half way
    for k in 0..2000u64 {
        v.push(1152 + 1024 * k);
        v.push((1u64 << 20) * (1 + k) + (1u64 << 20) / 200 * (2 * k + 1));
    }
    v.push(u64::MAX);
    v.push(u64::MAX - 1);
    v.push((1u64 << 53) + 1);
    v.push((1u64 << 53) + 3);
    v
}

#[test]
fn humanized_size_matches_float_formatting() {
    for n in samples() {
        assert_eq!(humanized_size(n), float_humanized(n), "size {n}");
    }
}

#[test]
fn tree_size_label_matches_float_formatting() {
    for n in samples() {
        assert_eq!(tree_size_label(n), float_tree_label(n), "size {n}");
    }
}

#[test]
fn humanized_size_examples() {
    assert_eq!(humanized_size(0), "0B");
    assert_eq!(humanized_size(512), "512B");
    assert_eq!(humanized_size(1023), "1023B");
    assert_eq!(humanized_size(1024), "1.00KiB");
    assert_eq!(humanized_size(1536), "1.50KiB");
    assert_eq!(humanized_size(12_636), "12.34KiB");
    assert_eq!(humanized_size(1 << 20), "1.00MiB");
    assert_eq!(humanized_size(3 << 30), "3.00GiB");
    assert_eq!(humanized_size(1 << 40), "1.00TiB");
    assert_eq!(humanized_size(u64::MAX), "16777216.00TiB");
}

#[test]
fn tree_size_label_examples() {
    assert_eq!(tree_size_label(0), "0.00B");
    assert_eq!(tree_size_label(1024), "1024.00B");
    assert_eq!(tree_size_label(1025), "1.00KiB");
    assert_eq!(tree_size_label(1 << 50), "1024.00TiB");
    assert_eq!(tree_size_label(u64::MAX), "16384.00PiB");
}

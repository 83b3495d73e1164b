//! Correctness tests: every implementation must behave EXACTLY like the
//! reference length (the number of bytes before the terminator) in all cases,
//! otherwise the benchmark is meaningless.

use libc_bench::strlen::{has_zero_byte, implementations, Implementation, Lang, StrlenFn};

/// The implementations that this library runs: the C ones are reached by the
/// benchmark harness only.
fn verified_implementations() -> Vec<Implementation> {
    implementations().into_iter().filter(|i| i.lang == Lang::Rust).collect()
}

/// Builds a valid C string (no interior `0`) and calls `f` on it.
fn run(f: StrlenFn, bytes: &[u8]) -> usize {
    assert!(!bytes.contains(&0), "no interior 0 in test input");
    let mut c = bytes.to_vec();
    c.push(0);
    f.call(&c, 0)
}

/// Checks an implementation against the expected length at several alignment
/// offsets (to trip up word-at-a-time versions).
fn check_with_offsets(name: &str, f: StrlenFn, content: &[u8]) {
    let expected = content.len();

    // Direct case.
    assert_eq!(run(f, content), expected, "{name}: aligned case");

    // Shifted cases: prefix some padding then start past it, to exercise every
    // possible alignment remainder (0..=WORD).
    for shift in 0..16usize {
        let mut buf = vec![b'#'; shift];
        buf.extend_from_slice(content);
        buf.push(0);
        let got = f.call(&buf, shift);
        assert_eq!(got, expected, "{name}: shift {shift}");
    }
}

#[test]
fn strlen_edge_cases() {
    // Lengths chosen around word (8) and vector (16/32) boundaries.
    let lengths = [0, 1, 2, 7, 8, 9, 15, 16, 17, 31, 32, 33, 63, 64, 65, 4095, 4096];

    for imp in verified_implementations() {
        for &len in &lengths {
            let content = vec![b'a'; len];
            check_with_offsets(imp.name, imp.func, &content);
        }
    }
}

#[test]
fn non_ascii_and_high_bytes() {
    // Bytes >= 0x80: trip up poorly written bitwise tricks.
    for imp in verified_implementations() {
        let content: Vec<u8> = (1u8..=255).cycle().take(300).collect();
        check_with_offsets(imp.name, imp.func, &content);
    }
}

#[test]
fn all_implementations_agree() {
    // Self-consistency: all implementations return the same thing.
    let imps = verified_implementations();
    let samples: Vec<Vec<u8>> = (0..200)
        .map(|n| (1u8..=255).cycle().take(n).collect())
        .collect();

    for content in &samples {
        let mut c = content.clone();
        c.push(0);
        let reference = imps[0].func.call(&c, 0);
        for imp in &imps {
            let got = imp.func.call(&c, 0);
            assert_eq!(got, reference, "{} diverges", imp.name);
        }
    }
}

/// Small deterministic generator standing in for random inputs.
fn next(seed: &mut u64) -> u64 {
    *seed = seed.wrapping_mul(6364136223846793005).wrapping_add(1442695040888963407);
    *seed >> 33
}

#[test]
fn matches_reference() {
    // Pseudo-random non-zero content, shifted, followed by junk after the
    // terminator: every implementation returns the content's length.
    let mut seed = 0xc0ffee_u64;
    for _ in 0..500 {
        let len = (next(&mut seed) % 513) as usize;
        let content: Vec<u8> = (0..len).map(|_| (next(&mut seed) % 255 + 1) as u8).collect();
        let shift = (next(&mut seed) % 16) as usize;
        let mut buf = vec![b'#'; shift];
        buf.extend_from_slice(&content);
        buf.push(0);
        for _ in 0..(next(&mut seed) % 9) {
            buf.push(next(&mut seed) as u8);
        }
        for imp in verified_implementations() {
            assert_eq!(imp.func.call(&buf, shift), len, "{} failed (shift={})", imp.name, shift);
        }
    }
}

#[test]
fn stops_at_first_zero() {
    // Zeros after the first one, and a string that is only a terminator.
    for imp in verified_implementations() {
        let buf = [b'a', b'b', 0, b'c', 0, 0, 0, 0, 0, 0, 0, 0];
        assert_eq!(imp.func.call(&buf, 0), 2);
        assert_eq!(imp.func.call(&buf, 2), 0);
        assert_eq!(imp.func.call(&buf, 3), 1);
        assert_eq!(imp.func.call(&[0u8], 0), 0);
    }
}

#[test]
fn terminator_in_last_partial_word() {
    // The buffer ends before a whole word after the last aligned index.
    for imp in verified_implementations() {
        let mut buf = vec![b'x'; 21];
        buf.push(0);
        for start in 0..22 {
            assert_eq!(imp.func.call(&buf, start), 21 - start);
        }
    }
}

#[test]
fn has_zero_byte_detects_each_position() {
    let word = std::mem::size_of::<usize>();
    assert!(!has_zero_byte(usize::MAX));
    assert!(!has_zero_byte(usize::MAX / 0xff));
    assert!(!has_zero_byte((usize::MAX / 0xff) << 7));
    assert!(has_zero_byte(0));
    assert!(has_zero_byte(0x0100));
    assert!(has_zero_byte(0x0101_0101_u32 as usize) == (word == 8));
    for k in 0..word {
        let x = usize::MAX & !(0xffusize << (8 * k));
        assert!(has_zero_byte(x), "zero byte at {k}");
        // A byte of 0x01 or 0x80 at that position is not zero.
        assert!(!has_zero_byte(x | (0x01usize << (8 * k))), "0x01 at {k}");
        assert!(!has_zero_byte(x | (0x80usize << (8 * k))), "0x80 at {k}");
    }
}

#[test]
fn strlen_registry() {
    let imps = implementations();
    let entries: Vec<(&str, Lang)> = imps.iter().map(|i| (i.name, i.lang)).collect();
    assert_eq!(
        entries,
        vec![("c_glibc", Lang::C), ("c_naive", Lang::C), ("rust_naive", Lang::Rust), ("rust_swar", Lang::Rust)]
    );
    let funcs: Vec<StrlenFn> = imps.iter().map(|i| i.func).collect();
    assert_eq!(funcs, vec![StrlenFn::CGlibc, StrlenFn::CNaive, StrlenFn::RustNaive, StrlenFn::RustSwar]);
}

use bench_tools::concurrency::sum_of_squares;
use bench_tools::cpu::{
    chase_pointers, count_primes, fibonacci, fibonacci_batch, golden_sequence, popcount, sum_greater_than,
    total_popcount,
};
use bench_tools::crypto::{checksum, xor_block};
use bench_tools::hashing::{hash_djb2, hash_fnv, hash_sdbm};
use bench_tools::radix::radix_sort;
use bench_tools::rng::{random_i32_values, random_values_in, shuffle_with, shuffled_indices};
use bench_tools::sorting::{quicksort_inner, quicksort_opt, INSERTION_CUTOFF};
use bench_tools::text;

fn pseudo_random(n: usize, seed: u64) -> Vec<i32> {
    let mut x = seed;
    let mut v = Vec::with_capacity(n);
    for _ in 0..n {
        x = x.wrapping_mul(6364136223846793005).wrapping_add(1442695040888963407);
        v.push((x >> 32) as i32);
    }
    v
}

fn sorted_copy(v: &[i32]) -> Vec<i32> {
    let mut s = v.to_vec();
    s.sort();
    s
}

#[test]
fn quicksort_sorts_small_and_large_inputs() {
    for n in [0usize, 1, 2, 3, 10, 32, 33, 34, 100, 1000, 5000] {
        let v = pseudo_random(n, n as u64 + 7);
        let mut a = v.clone();
        quicksort_opt(&mut a);
        assert_eq!(a, sorted_copy(&v), "length {}", n);
    }
}

#[test]
fn quicksort_handles_sorted_and_reversed_input() {
    let mut up: Vec<i32> = (0..500).collect();
    quicksort_opt(&mut up);
    assert_eq!(up, (0..500).collect::<Vec<i32>>());
    let mut down: Vec<i32> = (0..500).rev().collect();
    quicksort_opt(&mut down);
    assert_eq!(down, (0..500).collect::<Vec<i32>>());
}

#[test]
fn quicksort_handles_extreme_values() {
    let mut a = vec![i32::MAX, 0, i32::MIN, -1, 1, i32::MAX, i32::MIN];
    quicksort_opt(&mut a);
    assert_eq!(a, vec![i32::MIN, i32::MIN, -1, 0, 1, i32::MAX, i32::MAX]);
}

#[test]
fn quicksort_with_many_equal_values() {
    let mut a = vec![5i32; 200];
    a.extend(vec![3i32; 50]);
    let expected = sorted_copy(&a);
    quicksort_opt(&mut a);
    assert_eq!(a, expected);
}

#[test]
fn quicksort_inner_sorts_only_its_range() {
    let v = pseudo_random(300, 11);
    let mut a = v.clone();
    quicksort_inner(&mut a, 50, 249);
    assert_eq!(&a[..50], &v[..50]);
    assert_eq!(&a[250..], &v[250..]);
    assert_eq!(a[50..250].to_vec(), sorted_copy(&v[50..250]));
}

#[test]
fn insertion_cutoff_is_thirty_two() {
    assert_eq!(INSERTION_CUTOFF, 32);
}

#[test]
fn radix_sort_sorts_signed_values() {
    for n in [0usize, 1, 2, 17, 256, 1000, 4096] {
        let v = pseudo_random(n, 3 * n as u64 + 1);
        let mut a = v.clone();
        radix_sort(&mut a);
        assert_eq!(a, sorted_copy(&v), "length {}", n);
    }
    let mut b = vec![-5, 3, i32::MIN, 0, i32::MAX, -5, 255, 256, -256];
    radix_sort(&mut b);
    assert_eq!(b, vec![i32::MIN, -256, -5, -5, 0, 3, 255, 256, i32::MAX]);
}

#[test]
fn both_sorts_agree() {
    let v = pseudo_random(2000, 99);
    let mut q = v.clone();
    let mut r = v.clone();
    quicksort_opt(&mut q);
    radix_sort(&mut r);
    assert_eq!(q, r);
}

#[test]
fn byte_hashes_known_values() {
    assert_eq!(hash_djb2(b""), 5381);
    assert_eq!(hash_djb2(b"a"), 177670);
    assert_eq!(hash_djb2(b"abc"), 193485963);
    assert_eq!(hash_sdbm(b""), 0);
    assert_eq!(hash_sdbm(b"a"), 97);
    assert_eq!(hash_sdbm(b"ab"), 6363201);
    assert_eq!(hash_fnv(b""), 2166136261);
    assert_eq!(hash_fnv(b"a"), 0xe40c292c);
    assert_eq!(hash_fnv(b"foobar"), 0xbf9cf968);
}

fn reference_sdbm(s: &[u8]) -> u32 {
    let mut h: u32 = 0;
    for &c in s {
        h = (c as u32).wrapping_add(h.wrapping_mul(65599));
    }
    h
}

#[test]
fn sdbm_wraps_on_long_input() {
    let data = vec![b'a'; 1000];
    assert_eq!(hash_sdbm(&data), reference_sdbm(&data));
    assert_eq!(hash_djb2(&data), text::hash_djb2(std::str::from_utf8(&data).unwrap()));
}

#[test]
fn string_hash_reads_utf8_bytes() {
    assert_eq!(text::hash_djb2(""), 5381);
    assert_eq!(text::hash_djb2("abc"), 193485963);
    assert_eq!(text::hash_djb2("é"), hash_djb2("é".as_bytes()));
}

#[test]
fn split_counts() {
    assert_eq!(text::count_splits("", ','), 1);
    assert_eq!(text::count_splits("a,b,c", ','), 3);
    assert_eq!(text::count_splits(",,", ','), 3);
    assert_eq!(text::count_splits("abc", ','), 1);
    assert_eq!(text::count_splits("a→b→c", '→'), 3);
}

#[test]
fn reversed_text() {
    assert_eq!(text::reversed(""), "");
    assert_eq!(text::reversed("abc"), "cba");
    assert_eq!(text::reversed("añb"), "bña");
    let t = text::alphabet_text(1000);
    assert_eq!(text::reversed(&text::reversed(&t)), t);
}

#[test]
fn alphabet_data() {
    assert_eq!(text::alphabet_text(0), "");
    assert_eq!(text::alphabet_text(28), "abcdefghijklmnopqrstuvwxyzab");
    let b = text::alphabet_bytes(30);
    assert_eq!(b.len(), 30);
    assert_eq!(&b[..3], b"abc");
    assert_eq!(b[26], b'a');
    assert_eq!(b[29], b'd');
}

#[test]
fn fibonacci_values() {
    assert_eq!(fibonacci(0), 0);
    assert_eq!(fibonacci(1), 1);
    assert_eq!(fibonacci(10), 55);
    assert_eq!(fibonacci(50), 12586269025);
    assert_eq!(fibonacci(93), 12200160415121876738);
    assert_eq!(fibonacci(94), 1293530146158671551);
}

#[test]
fn fibonacci_batch_xors_index() {
    let r = fibonacci_batch(4, 50);
    assert_eq!(r, vec![12586269025, 12586269025 ^ 1, 12586269025 ^ 2, 12586269025 ^ 3]);
    assert!(fibonacci_batch(0, 50).is_empty());
}

#[test]
fn prime_counts() {
    assert_eq!(count_primes(0), 0);
    assert_eq!(count_primes(1), 0);
    assert_eq!(count_primes(2), 1);
    assert_eq!(count_primes(10), 4);
    assert_eq!(count_primes(100), 25);
    assert_eq!(count_primes(1_000_000), 78498);
}

#[test]
fn popcounts() {
    assert_eq!(popcount(0), 0);
    assert_eq!(popcount(0b1011), 3);
    assert_eq!(popcount(u32::MAX), 32);
    assert_eq!(popcount(0x8000_0001), 2);
    let data = golden_sequence(5);
    assert_eq!(data, vec![0, 0x9e3779b9, 0x3c6ef372, 0xdaa66d2b, 0x78dde6e4]);
    let expected: u64 = data.iter().map(|x| x.count_ones() as u64).sum();
    assert_eq!(total_popcount(&data), expected);
    assert_eq!(total_popcount(&[]), 0);
}

#[test]
fn branch_sums() {
    assert_eq!(sum_greater_than(&[10, 51, 50, 100], 50), 151);
    assert_eq!(sum_greater_than(&[], 50), 0);
    assert_eq!(sum_greater_than(&[-3, -1, 0], -2), -1);
    let unsorted = [7i64, 99, 51, 3, 60, 50];
    let mut sorted = unsorted.to_vec();
    sorted.sort();
    assert_eq!(sum_greater_than(&unsorted, 50), sum_greater_than(&sorted, 50));
    assert_eq!(sum_greater_than(&[i64::MAX, 1], 0), i64::MIN);
}

#[test]
fn pointer_chase() {
    assert_eq!(chase_pointers(&[1, 2, 0], 0), 0);
    assert_eq!(chase_pointers(&[1, 2, 0], 4), 1);
    assert_eq!(chase_pointers(&[0], 10), 0);
}

#[test]
fn xor_and_checksum() {
    let key: Vec<u8> = (0..16).collect();
    let input = vec![0xAAu8; 16];
    let out = xor_block(&input, &key);
    assert_eq!(out[0], 0xAA);
    assert_eq!(out[1], 0xAB);
    assert_eq!(out[15], 0xA5);
    assert_eq!(xor_block(&out, &key), input);
    assert_eq!(checksum(&out, 0), 0);
    assert_eq!(checksum(&out, 2), 0xAA + 0xAB);
    let one_round: i32 = out.iter().map(|&b| b as i32).sum();
    assert_eq!(checksum(&out, 32), 2 * one_round);
    assert_eq!(checksum(&[255u8], 10_000_000), 2_550_000_000u32 as i32);
}

#[test]
fn squares() {
    assert_eq!(sum_of_squares(0, 4), 14);
    assert_eq!(sum_of_squares(5, 5), 0);
    assert_eq!(sum_of_squares(7, 3), 0);
    let whole = sum_of_squares(0, 1000);
    let split = sum_of_squares(0, 400).wrapping_add(sum_of_squares(400, 1000));
    assert_eq!(whole, split);
    assert_eq!(whole, 332833500);
}

#[test]
fn random_inputs() {
    let mut rng = rand::thread_rng();
    assert_eq!(random_i32_values(&mut rng, 100).len(), 100);
    let vals = random_values_in(&mut rng, 1000, 0, 100);
    assert_eq!(vals.len(), 1000);
    assert!(vals.iter().all(|&v| (0..100).contains(&v)));
    let idx = shuffled_indices(&mut rng, 500);
    let mut s = idx.clone();
    s.sort();
    assert_eq!(s, (0..500).collect::<Vec<usize>>());
    assert!(shuffled_indices(&mut rng, 0).is_empty());
}

#[test]
fn shuffle_with_given_draws() {
    assert_eq!(shuffle_with(4, &vec![0, 0, 0]), vec![1, 2, 3, 0]);
    assert_eq!(shuffle_with(4, &vec![3, 2, 1]), vec![0, 1, 2, 3]);
    assert_eq!(shuffle_with(3, &vec![1, 0]), vec![2, 0, 1]);
    assert_eq!(shuffle_with(1, &vec![]), vec![0]);
    assert!(shuffle_with(0, &vec![]).is_empty());
}

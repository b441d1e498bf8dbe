use loki::thwart::{constraint_operation, constraint_with_key};
use loki::expr::LinearizedExpr;
use loki::expression_utils::{constant, reg};
use loki::keys::ALUKeys;
use loki::thwart::{
    constraint_key_with_multiple_roots, constraint_key_with_primes, gen_prime_candidate,
    gen_rand_key, gen_rand_prime, synthesize_point_function, thwart_recursive, verify_constraints,
    verify_handler,
};

fn add64(x: LinearizedExpr, y: LinearizedExpr) -> LinearizedExpr {
    loki::expression_utils::add(x, y, 64)
}

#[test]
fn prime_candidates_are_odd_and_bounded() {
    assert_eq!(gen_prime_candidate(0xffff_ffff_ffff_fff0, 32), 0xffff_fff1);
    assert_eq!(gen_prime_candidate(4, 8), 5);
}

#[test]
fn random_prime_skips_composites() {
    // 0x2000_0001 = 3 * 178956971 is composite, 15 is too small, 0x2000_000b is prime.
    let draws = vec![0x2000_0001, 15, 0x2000_000b];
    assert_eq!(gen_rand_prime(32, &draws, 0), Some((0x2000_000b, 3)));
    assert_eq!(gen_rand_prime(32, &vec![0x2000_0001], 0), None);
}

#[test]
fn fresh_keys_are_added() {
    let mut keys = ALUKeys::new();
    let draws = vec![7, 7, 9];
    assert_eq!(gen_rand_key(&mut keys, false, &draws, 0), Some(1));
    assert_eq!(gen_rand_key(&mut keys, false, &draws, 1), Some(3));
    assert_eq!(keys.len(), 2);
    assert_eq!(keys.get(0), 7);
    assert_eq!(keys.get(1), 9);
    assert!(keys.contains(9));
    assert_eq!(gen_rand_key(&mut keys, false, &draws, 3), None);
    assert_eq!(keys.len(), 2);
}

#[test]
fn prime_slot_gets_two_primes() {
    let mut keys = ALUKeys::new();
    let draws = vec![0x2000_000b, 0x2000_000b, 0x2000_0027];
    assert_eq!(gen_rand_key(&mut keys, true, &draws, 0), Some(3));
    assert_eq!(keys.get(0), 0x2000_000b);
    assert!(keys.contains_additional_key(0));
    assert_eq!(keys.get_additional_key(0), 0x2000_0027);
}

#[test]
fn factorization_check_selects_its_key() {
    let mut keys = ALUKeys::new();
    keys.push(0x2000_000b);
    keys.insert_additional_key(0, 0x2000_0027);
    keys.push(0x1234_5678_9abc_def0);
    let check = constraint_key_with_primes(&keys, 0);
    let mut on = check.clone();
    on.replace_subexpr(&reg("k", 64), &constant(0x2000_000b, 64));
    assert_eq!(on.simplify(), constant(1, 64));
    let mut off = check;
    off.replace_subexpr(&reg("k", 64), &constant(0x1234_5678_9abc_def0, 64));
    assert_eq!(off.simplify(), constant(0, 64));
}

#[test]
fn point_function_search_takes_first_match() {
    let mut keys = ALUKeys::new();
    keys.push(0x0102_0304_0506_0708);
    keys.push(0x1112_1314_1516_1718);
    let wrong = constraint_key_with_multiple_roots(&keys, 1, 0);
    let right = constraint_key_with_multiple_roots(&keys, 0, 2);
    let found = synthesize_point_function(&keys, 0, &vec![wrong.clone(), right.clone()]);
    assert_eq!(found, Some(right));
    assert_eq!(synthesize_point_function(&keys, 0, &vec![wrong]), None);
    assert!(!verify_constraints(&reg("k", 64), &keys, 0));
}

#[test]
fn handler_acceptance_check() {
    let mut keys = ALUKeys::new();
    keys.push(0x0102_0304_0506_0708);
    keys.push(0x1112_1314_1516_1718);
    let checks = vec![
        constraint_key_with_multiple_roots(&keys, 0, 0),
        constraint_key_with_multiple_roots(&keys, 1, 1),
    ];
    let semantics = vec![add64(reg("x", 64), reg("y", 64)), add64(reg("x", 64), reg("c", 64))];
    let handler = thwart_recursive(&semantics, &checks, 0);
    assert!(verify_handler(&handler, &keys, &semantics));
    let swapped = vec![semantics[1].clone(), semantics[0].clone()];
    assert!(!verify_handler(&handler, &keys, &swapped));
}

#[test]
fn key_check_kinds() {
    let mut keys = ALUKeys::new();
    keys.push(0x2000_000b);
    keys.insert_additional_key(0, 0x2000_0027);
    keys.push(0x0102_0304_0506_0708);
    let primes = constraint_with_key(&keys, 0, &vec![], 0);
    assert_eq!(primes, constraint_key_with_primes(&keys, 0));
    let roots = constraint_with_key(&keys, 1, &vec![], 2);
    assert_eq!(roots, constraint_key_with_multiple_roots(&keys, 1, 2));
    let gated = constraint_operation(&reg("x", 64), &roots);
    assert_eq!(gated.len(), roots.len() + 2);
}

#[test]
fn thwarted_handler_passes_acceptance() {
    let semantics = vec![
        add64(reg("x", 64), reg("y", 64)),
        loki::expression_utils::xor(reg("x", 64), reg("c", 64), 64),
        loki::expression_utils::mul(reg("y", 64), reg("c", 64), 64),
    ];
    let mut draws = Vec::new();
    let mut state = 0x1234_5678_u64;
    for _ in 0..4000 {
        state = state.wrapping_mul(6364136223846793005).wrapping_add(1442695040888963407);
        draws.push(state >> 3);
    }
    let mut keys = ALUKeys::new();
    let handler = loki::thwart::thwart(&semantics, &mut keys, &draws, 4).unwrap();
    assert_eq!(keys.len(), 3);
    assert!(verify_handler(&handler, &keys, &semantics));
}

#[test]
fn point_function_candidates_are_complete() {
    let draws: Vec<u64> = (0..64u64).map(|i| i * 7 + 3).collect();
    let e = loki::thwart::gen_expr(&draws, 0);
    assert!(e.len() >= 1);
    assert!(e.to_string().len() > 0);
}

#[test]
fn prime_slot_without_second_prime_leaves_keys() {
    let mut keys = ALUKeys::new();
    assert_eq!(gen_rand_key(&mut keys, true, &vec![0x2000_000b, 4], 0), None);
    assert_eq!(keys.len(), 0);
}

use s3etag::{compute_with_chunk_size, Context, Digest};

#[test]
fn compute() {
    let large = "a".repeat(8 * 1024 * 1024 + 1);
    let inputs = ["hello", "hello\n", &large];
    let outputs = [
        "62109206880d38a4010a98e11243924a-1",
        "6a6d8d4533507d490ab007dfe8314ab7-1",
        "b62778a5dbf858d29ac84f718e3a8374-2",
    ];
    for (input, &output) in inputs.iter().zip(outputs.iter()) {
        let digest = s3etag::compute(input.as_bytes());
        assert_eq!(digest.to_lower_hex(), output);

        let mut context = Context::new();
        context.consume(input.as_bytes());
        let digest = context.finalize();
        assert_eq!(digest.to_lower_hex(), output);
    }

    let inputs = vec![("a".repeat(8 * 1024 * 1024 + 1), 2)];
    let outputs = vec!["2b26d4c146cf1500e532eed66eba4a36-5"];
    for ((input, chunk_size), &output) in inputs.iter().zip(outputs.iter()) {
        let digest = compute_with_chunk_size(input.as_bytes(), *chunk_size * 1024 * 1024);
        assert_eq!(digest.to_lower_hex(), output);

        let mut context = Context::with_chunk_size(*chunk_size * 1024 * 1024);
        context.consume(input.as_bytes());
        let digest = context.finalize();
        assert_eq!(digest.to_lower_hex(), output);
    }
}

#[test]
fn empty_input_is_one_chunk() {
    let digest = s3etag::compute(b"");
    assert_eq!(digest.parts(), 1);
    let expected = md5::compute(&md5::compute(b"").0);
    assert_eq!(digest.hash(), &expected.0);
    assert!(digest.to_lower_hex().ends_with("-1"));
}

#[test]
fn chunking_invariance_concrete() {
    let data = b"the quick brown fox jumps over the lazy dog";
    let whole = compute_with_chunk_size(data, 7);

    let mut ctx = Context::with_chunk_size(7);
    ctx.consume(&data[..1]);
    ctx.consume(&data[1..5]);
    ctx.consume(&data[5..5]);
    ctx.consume(&data[5..20]);
    ctx.consume(&data[20..]);
    let split = ctx.finalize();
    assert_eq!(whole, split);
    assert_eq!(whole.to_lower_hex(), split.to_lower_hex());

    let mut one_by_one = Context::with_chunk_size(7);
    for b in data.iter() {
        one_by_one.consume(std::slice::from_ref(b));
    }
    assert_eq!(whole, one_by_one.finalize());
}

#[test]
fn determinism() {
    let data = b"some bytes worth hashing";
    let a = s3etag::compute(data);
    let b = s3etag::compute(data);
    assert_eq!(a, b);
    assert_eq!(a.to_lower_hex(), b.to_lower_hex());
    let c = compute_with_chunk_size(data, 5);
    let d = compute_with_chunk_size(data, 5);
    assert_eq!(c, d);
}

#[test]
fn boundary_exactness() {
    let chunk = 1024;
    let two_chunks = vec![7u8; 2 * chunk];
    assert_eq!(compute_with_chunk_size(&two_chunks, chunk).parts(), 2);
    let one_chunk = vec![7u8; chunk];
    assert_eq!(compute_with_chunk_size(&one_chunk, chunk).parts(), 1);
    let just_over = vec![7u8; chunk + 1];
    assert_eq!(compute_with_chunk_size(&just_over, chunk).parts(), 2);
    let five_chunks = vec![9u8; 5 * chunk];
    assert_eq!(compute_with_chunk_size(&five_chunks, chunk).parts(), 5);
}

#[test]
fn chunk_count_formula() {
    let cases: [(usize, usize, usize); 7] = [
        (0, 4, 1),
        (1, 4, 1),
        (3, 4, 1),
        (4, 4, 1),
        (5, 4, 2),
        (8, 4, 2),
        (9, 4, 3),
    ];
    for &(len, chunk, expected) in cases.iter() {
        let data = vec![0u8; len];
        assert_eq!(compute_with_chunk_size(&data, chunk).parts(), expected);
    }
}

#[test]
fn round_trip_formatting() {
    let digest = s3etag::compute(b"hello");
    let text = digest.to_lower_hex();
    assert_eq!(text, "62109206880d38a4010a98e11243924a-1");
    let back = Digest::parse_lower_hex(&text).expect("canonical form must parse");
    assert_eq!(back, digest);
    assert_eq!(back.parts(), 1);
    assert_eq!(back.hash(), digest.hash());

    let multi = compute_with_chunk_size(b"0123456789abcdef", 3);
    let text = multi.to_lower_hex();
    let back = Digest::parse_lower_hex(&text).expect("canonical form must parse");
    assert_eq!(back, multi);
}

#[test]
fn parse_rejects_bad_forms() {
    assert!(Digest::parse_lower_hex("").is_none());
    assert!(Digest::parse_lower_hex("62109206880d38a4010a98e11243924a").is_none());
    assert!(Digest::parse_lower_hex("62109206880d38a4010a98e11243924a-").is_none());
    assert!(Digest::parse_lower_hex("62109206880d38a4010a98e11243924g-1").is_none());
    assert!(Digest::parse_lower_hex("62109206880D38A4010A98E11243924A-1").is_none());
    assert!(Digest::parse_lower_hex("62109206880d38a4010a98e11243924a-01").is_none());
    assert!(Digest::parse_lower_hex("62109206880d38a4010a98e11243924a_1").is_none());
    assert!(Digest::parse_lower_hex("62109206880d38a4010a98e11243924a-1x").is_none());
    assert!(
        Digest::parse_lower_hex("62109206880d38a4010a98e11243924a-99999999999999999999999999")
            .is_none()
    );
}

#[test]
fn upper_hex_form() {
    let digest = s3etag::compute(b"hello");
    assert_eq!(digest.to_upper_hex(), "62109206880D38A4010A98E11243924A-1");
}

#[test]
fn total_bytes_counts_input() {
    let mut ctx = Context::new();
    assert_eq!(ctx.total_bytes(), 0);
    ctx.consume(b"hello");
    ctx.consume(b" world");
    assert_eq!(ctx.total_bytes(), 11);
}

#[test]
fn zero_chunk_size_is_rejected() {
    assert!(Context::try_with_chunk_size(0).is_none());
    let ctx = Context::try_with_chunk_size(5).expect("positive chunk size is accepted");
    drop(ctx);
}

#[test]
fn capacity_hint_changes_nothing() {
    let data = b"hint me some bytes, many more than one chunk of them";
    let plain = compute_with_chunk_size(data, 8);
    let mut hinted = Context::with_capacity(8, data.len() as u64);
    hinted.consume(data);
    assert_eq!(hinted.finalize(), plain);
    let mut oversized = Context::with_capacity(8, 0);
    oversized.consume(data);
    assert_eq!(oversized.finalize(), plain);
}

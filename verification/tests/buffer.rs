use exchange_loop::remaining_span;

#[test]
fn span_starts_behind_the_accumulated_bytes() {
    let mut receive = [1u8, 2, 3, 4, 5, 6, 7, 8];
    let span = remaining_span(&mut receive, 3);
    assert_eq!(span.to_vec(), vec![4, 5, 6, 7, 8]);
}

#[test]
fn span_of_an_untouched_buffer_is_the_whole_buffer() {
    let mut receive = [0u8; 4096];
    assert_eq!(remaining_span(&mut receive, 0).len(), 4096);
}

#[test]
fn span_of_a_full_buffer_is_empty() {
    let mut receive = [0u8; 16];
    assert!(remaining_span(&mut receive, 16).is_empty());
    assert!(remaining_span(&mut receive, 17).is_empty());
    assert!(remaining_span(&mut receive, usize::MAX).is_empty());
}

#[test]
fn writing_through_the_span_leaves_the_accumulated_bytes() {
    let mut receive = [9u8; 8];
    receive[0] = 1;
    receive[1] = 2;
    let span = remaining_span(&mut receive, 2);
    span[0] = 3;
    span[1] = 4;
    for byte in span[2..].iter_mut() {
        *byte = 0;
    }
    assert_eq!(receive, [1, 2, 3, 4, 0, 0, 0, 0]);
}

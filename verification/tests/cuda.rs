use greppy::cuda::{check, fallback_message, CUDA_BACKEND_UNAVAILABLE};

#[test]
fn cuda_status_zero_is_success_and_others_name_the_call() {
    assert_eq!(check(0, "cudaMalloc", "no error"), Ok(()));
    assert_eq!(
        check(2, "cudaMalloc", "out of memory"),
        Err("cudaMalloc: out of memory (2)".to_string())
    );
    assert_eq!(fallback_message(CUDA_BACKEND_UNAVAILABLE), "CUDA backend unavailable");
    assert_eq!(fallback_message(-3), "CUDA error code -3");
}

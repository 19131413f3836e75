use koi::ktracing_allocator::{get_memory_used, get_peak_memory_usage, TracingAllocator};

#[test]
fn counts_follow_allocations() {
    let mut a = TracingAllocator::new();
    a.on_alloc(100);
    a.on_alloc_zeroed(50);
    assert_eq!(get_memory_used(&a), 150);
    assert_eq!(get_peak_memory_usage(&a), 150);
    a.on_dealloc(120);
    assert_eq!(get_memory_used(&a), 30);
    assert_eq!(get_peak_memory_usage(&a), 150);
    a.on_realloc(30, 200);
    assert_eq!(get_memory_used(&a), 200);
    assert_eq!(get_peak_memory_usage(&a), 200);
    a.on_realloc(200, 10);
    assert_eq!(get_memory_used(&a), 10);
    assert_eq!(get_peak_memory_usage(&a), 200);
}

#[test]
fn counts_follow_a_history_of_calls() {
    let mut a = koi::ktracing_allocator::TracingAllocator::new();
    a.on_alloc(10);
    a.on_alloc_zeroed(6);
    a.on_dealloc(10);
    a.on_realloc(6, 20);
    a.on_realloc(20, 4);
    assert_eq!(koi::ktracing_allocator::get_memory_used(&a), 4);
    assert_eq!(koi::ktracing_allocator::get_peak_memory_usage(&a), 20);
}

use barrier_coord::postgres_config::{default_max_batch_rows, default_schema};

#[test]
fn postgres_defaults() {
    assert_eq!(default_max_batch_rows(), 1024);
    assert_eq!(default_schema(), "public");
}

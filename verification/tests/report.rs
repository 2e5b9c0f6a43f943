use bench_harness::report::csv_line;

#[test]
fn line_of_formatted_fields() {
    let elapsed = format!("{:.4}", 1.5f64);
    let memory = format!("{:.2}", -0.25f64);
    let cpu = format!("{:.2}", 99.0f32);
    assert_eq!(csv_line(&elapsed, &memory, &cpu), "RESULT_CSV:1.5000,-0.25,99.00");
}

#[test]
fn line_has_the_prefix_and_three_numbers() {
    let line = csv_line("0.0123", "12.00", "0.00");
    let fields = line.strip_prefix("RESULT_CSV:").unwrap();
    let numbers: Vec<f64> = fields.split(',').map(|f| f.parse::<f64>().unwrap()).collect();
    assert_eq!(numbers, vec![0.0123, 12.0, 0.0]);
}

#[test]
fn fields_are_taken_as_they_are() {
    assert_eq!(csv_line("", "", ""), "RESULT_CSV:,,");
    assert_eq!(csv_line("a", "b", "c"), "RESULT_CSV:a,b,c");
}

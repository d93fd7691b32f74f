use bench_tools::floattext::float_literal;
use bench_tools::names::{chars_lt, grouped_order, row_count, sorted_unique, test_name_at_row};
use bench_tools::parsing::{
    category_test_name, first_number_text, output_time_texts, result_fields_from_groups, result_line_entries,
    result_line_fields, skipped_line, time_line_entries, time_line_fields, time_line_from_groups, time_text,
    title_case_name,
};
use bench_tools::stats::{escape_sql_quotes, quartiles, stats_query, values_query, STATS_ALL_QUERY};
use bench_tools::strutil::{
    chars_contain, chars_of, count_matches, space_char, string_from, text_contains, trim_bounds, trimmed_lines,
};
use bench_tools::tasks::{
    default_batches, enabled_batch_count, enabled_task_count, filter_bench_tasks, filter_runner_tasks, get_tasks,
    in_categories, run_plan, run_status, set_all_batches, task_category, tasks, toggle_batch,
};

fn strings(v: &[&str]) -> Vec<String> {
    v.iter().map(|s| s.to_string()).collect()
}

fn pair(a: &str, b: &str) -> (String, String) {
    (a.to_string(), b.to_string())
}

fn triple(a: &str, b: &str, c: &str) -> (String, String, String) {
    (a.to_string(), b.to_string(), c.to_string())
}

#[test]
fn runner_table_contents() {
    let t = get_tasks();
    assert_eq!(t.len(), 132);
    assert_eq!((t[0].name, t[0].language, t[0].category, t[0].mise_task), ("c-matrix", "C", "matrix", "c-matrix"));
    let last = &t[131];
    assert_eq!((last.name, last.language, last.category, last.mise_task), ("cs-allocator", "C#", "allocator", "cs-allocator"));
    assert!(t.iter().all(|x| x.name == x.mise_task));
}

#[test]
fn bench_table_contents() {
    let t = tasks();
    assert_eq!(t.len(), 61);
    assert_eq!((t[0].mise, t[0].lang, t[0].cat), ("c-matrix", "C", "matrix"));
    assert_eq!((t[60].mise, t[60].lang, t[60].cat), ("java-concurrency", "Java", "concurrency"));
}

#[test]
fn category_filters() {
    let all = get_tasks();
    let sorts = filter_runner_tasks(&all, &Some(strings(&["sort"])));
    assert_eq!(sorts.len(), 13);
    assert!(sorts.iter().all(|t| t.category == "sort"));
    assert_eq!(filter_runner_tasks(&all, &None).len(), 132);
    assert_eq!(filter_runner_tasks(&all, &Some(vec![])).len(), 0);
    let two = filter_runner_tasks(&all, &Some(strings(&["cpu", "sort"])));
    assert_eq!(two.len(), 21);
    let bench = tasks();
    let b = filter_bench_tasks(&bench, &Some(strings(&["sort"])));
    let names: Vec<&str> = b.iter().map(|t| t.mise).collect();
    assert_eq!(names, vec!["c-sort", "cpp-sort", "rust-sort", "python-sort", "java-sort"]);
    assert_eq!(filter_bench_tasks(&bench, &Some(strings(&["nope"]))).len(), 0);
    assert!(in_categories(&strings(&["a", "sort"]), "sort"));
    assert!(!in_categories(&strings(&["a", "sort"]), "Sort"));
}

#[test]
fn statuses_and_categories() {
    assert_eq!(run_status(0), "completed");
    assert_eq!(run_status(3), "partial");
    assert_eq!(task_category("rust-matrix"), "matrix");
    assert_eq!(task_category("cs-string"), "string");
    assert_eq!(task_category("gcc-regex"), "regex");
    assert_eq!(task_category("c-hash"), "hash");
    assert_eq!(task_category("sort-matrix"), "matrix");
    assert_eq!(task_category("all"), "other");
}

#[test]
fn batches_start_as_the_monitor_lists_them() {
    let b = default_batches();
    assert_eq!(b.len(), 9);
    assert_eq!(b[0].name, "All");
    assert_eq!(b[0].just_tasks, strings(&["all"]));
    assert!(!b[0].enabled);
    assert_eq!(b[1].name, "C (clang)");
    assert_eq!(b[8].name, "C#");
    assert_eq!(b[8].just_tasks, strings(&["cs-matrix", "cs-sort", "cs-string"]));
    assert_eq!(enabled_batch_count(&b), 7);
    assert_eq!(enabled_task_count(&b), 35);
}

#[test]
fn batch_selection_changes() {
    let mut b = default_batches();
    toggle_batch(&mut b, 0);
    assert!(b[0].enabled);
    assert_eq!(enabled_batch_count(&b), 8);
    assert_eq!(enabled_task_count(&b), 36);
    toggle_batch(&mut b, 0);
    assert!(!b[0].enabled);
    assert_eq!(b[0].name, "All");
    set_all_batches(&mut b, true);
    assert_eq!(enabled_batch_count(&b), 9);
    assert_eq!(enabled_task_count(&b), 39);
    set_all_batches(&mut b, false);
    assert_eq!(enabled_batch_count(&b), 0);
    assert_eq!(enabled_task_count(&b), 0);
    assert!(run_plan(&b).is_empty());
}

#[test]
fn run_plan_follows_selected_batches() {
    let b = default_batches();
    let plan = run_plan(&b);
    assert_eq!(plan.len(), 35);
    assert_eq!(plan[0], ("c-matrix".to_string(), "C (clang)".to_string(), "matrix"));
    assert_eq!(plan[4], ("c-regex".to_string(), "C (clang)".to_string(), "regex"));
    assert_eq!(plan[34], ("java-regex".to_string(), "Java".to_string(), "regex"));
    assert_eq!(plan.len(), enabled_task_count(&b));
}

#[test]
fn title_case_names() {
    assert_eq!(title_case_name("matrix_mult"), "Matrix Mult");
    assert_eq!(title_case_name("  hello   world "), "Hello World");
    assert_eq!(title_case_name(""), "");
    assert_eq!(title_case_name("__"), "");
    assert_eq!(title_case_name("already Upper"), "Already Upper");
    assert_eq!(title_case_name("ßtraße"), "SStraße");
    assert_eq!(title_case_name("x\ty"), "X Y");
}

#[test]
fn skipped_lines() {
    assert!(skipped_line(&"".to_string()));
    assert!(skipped_line(&"# comment".to_string()));
    assert!(skipped_line(&"=====".to_string()));
    assert!(!skipped_line(&"Sort: 1 ms".to_string()));
}

#[test]
fn bench_time_lines() {
    assert_eq!(time_line_fields("Sort: 12.5 ms"), Some(pair("Sort", "12.5")));
    assert_eq!(time_line_fields("Quick sort: 3.0 ms (x)"), Some(pair("Quick sort", "3.0")));
    assert_eq!(time_line_fields("Name:1.2.3ms"), Some(pair("Name", "1.2.3")));
    assert_eq!(time_line_fields("sort-x: 1 ms"), None);
    assert_eq!(time_line_fields("no match here"), None);
    assert_eq!(time_line_from_groups(Some(" a b ".to_string()), Some("1".to_string())), Some(pair("a b", "1")));
    assert_eq!(time_line_from_groups(None, Some("1".to_string())), None);
    let out = "# header\nSort: 1 ms\n  Hash: 2.5 ms  \n=====\nbad line\n";
    assert_eq!(time_line_entries(out), vec![pair("Sort", "1"), pair("Hash", "2.5")]);
    assert!(time_line_entries("").is_empty());
}

#[test]
fn monitor_time_texts() {
    assert_eq!(time_text("Sort: 3.25 ms"), Some("3.25".to_string()));
    assert_eq!(time_text("Average time: 12.5"), Some("12.5".to_string()));
    assert_eq!(time_text("took 7 ms avg"), Some("7".to_string()));
    assert_eq!(time_text("nothing"), None);
    assert_eq!(
        first_number_text(vec![None, Some("x".to_string()), Some("4".to_string())]),
        Some("4".to_string())
    );
    assert_eq!(first_number_text(vec![]), None);
    let out = "Matrix multiply (200x200): 4.10 ms\nnothing\n  Average time: 2\n";
    assert_eq!(output_time_texts(out), strings(&["4.10", "2"]));
}

#[test]
fn runner_result_lines() {
    assert_eq!(result_line_fields("matrix_mult: 12.5 ms"), Some(triple("Matrix Mult", "12.5", "ms")));
    assert_eq!(result_line_fields("Sort 100 elements/sec"), Some(triple("Sort", "100", "elements/sec")));
    assert_eq!(result_line_fields("Quicksort: 1.5e3 ns"), Some(triple("Quicksort", "1.5e3", "ns")));
    assert_eq!(
        result_line_fields("cpu_fibonacci: 12.00 ms (833 ops/sec)"),
        Some(triple("Cpu Fibonacci", "12.00", "ms"))
    );
    assert_eq!(result_line_fields("Throughput 2.5 GFLOPS"), Some(triple("Throughput", "2.5", "GFLOPS")));
    assert_eq!(result_line_fields("x: - ms"), None);
    assert_eq!(result_line_fields("Bad: abc ms"), None);
    assert_eq!(
        result_fields_from_groups(true, None, None, None),
        Some(triple("", "0", "value"))
    );
    assert_eq!(result_fields_from_groups(false, Some("a".to_string()), Some("1".to_string()), None), None);
    let out = "=== Suite ===\nmatrix_mult: 12.5 ms\n\n# skip: 1 ms\nHash 3 GB/s\nnoise\n";
    assert_eq!(
        result_line_entries(out),
        vec![triple("Matrix Mult", "12.5", "ms"), triple("Hash", "3", "GB/s")]
    );
}

#[test]
fn monitor_test_names() {
    assert_eq!(category_test_name("matrix"), "Matrix");
    assert_eq!(category_test_name("sort"), "Sort");
    assert_eq!(category_test_name("string"), "String");
    assert_eq!(category_test_name("hash"), "hash");
}

#[test]
fn float_literals() {
    for ok in ["12.5", "1e5", "1E-5", "+.5", "5.", "-0", "inf", "-Infinity", "NaN", "nan", "007", "1.5e3"] {
        assert!(float_literal(ok), "{}", ok);
        assert!(ok.parse::<f64>().is_ok(), "{}", ok);
    }
    for bad in ["", ".", "-", "1.2.3", "e5", "1e", "1e+", "infinit", "0x10", " 1", "1 ", "--1"] {
        assert!(!float_literal(bad), "{}", bad);
        assert!(bad.parse::<f64>().is_err(), "{}", bad);
    }
}

#[test]
fn sql_texts() {
    assert_eq!(escape_sql_quotes("O'Brien"), "O''Brien");
    assert_eq!(escape_sql_quotes("''"), "''''");
    assert_eq!(escape_sql_quotes(""), "");
    for name in ["it's", "'", "a''b", "plain", "'x'"] {
        assert_eq!(escape_sql_quotes(name).replace("''", "'"), name);
    }
    assert_eq!(stats_query(None), STATS_ALL_QUERY);
    let q = stats_query(Some("a'b"));
    assert!(q.contains("WHERE category = 'a''b'\n"));
    assert!(q.ends_with("ORDER BY test_name, avg_ms"));
    let v = values_query("C", "it's");
    assert!(v.starts_with("SELECT time_ms FROM benchmark_results"));
    assert!(v.contains("WHERE language = 'C' AND test_name = 'it''s'"));
    assert!(v.ends_with("ORDER BY time_ms"));
}

#[test]
fn quartile_positions() {
    let v = vec![1, 2, 3, 4, 5, 6, 7, 8];
    assert_eq!(quartiles(&v, 0, 9), (3, 7));
    assert_eq!(quartiles(&vec![1, 2, 3], 0, 9), (0, 9));
    assert_eq!(quartiles(&vec![10, 20, 30, 40], 0, 9), (20, 40));
    assert_eq!(quartiles(&vec![1.5f64, 2.5, 3.5, 4.5, 5.5], 0.0, 9.0), (2.5, 4.5));
}

#[test]
fn name_ordering() {
    assert_eq!(sorted_unique(&strings(&["b", "a", "b", "c", "a"])), strings(&["a", "b", "c"]));
    assert!(sorted_unique(&vec![]).is_empty());
    assert_eq!(sorted_unique(&strings(&["Z", "a", "É"])), strings(&["Z", "a", "É"]));
    let names = strings(&["b", "a", "b", "a"]);
    assert_eq!(grouped_order(&names), vec![1, 3, 0, 2]);
    assert_eq!(test_name_at_row(&names, 0), Some("a".to_string()));
    assert_eq!(test_name_at_row(&names, 2), Some("b".to_string()));
    assert_eq!(test_name_at_row(&names, 4), None);
    assert_eq!(row_count(&names), 4);
    assert!(chars_lt(&vec!['a'], &vec!['a', 'b']));
    assert!(!chars_lt(&vec!['b'], &vec!['a', 'b']));
    assert!(!chars_lt(&vec!['a'], &vec!['a']));
}

#[test]
fn text_helpers() {
    assert_eq!(chars_of("añb"), vec!['a', 'ñ', 'b']);
    assert_eq!(string_from(&vec!['a', 'b', 'c'], 1, 3), "bc");
    assert_eq!(trim_bounds(&chars_of("  ab "), 0, 5), (2, 4));
    assert_eq!(trim_bounds(&chars_of("   "), 0, 3).0, trim_bounds(&chars_of("   "), 0, 3).1);
    assert!(space_char('\t'));
    assert!(space_char('\u{3000}'));
    assert!(!space_char('x'));
    assert_eq!(trimmed_lines("  a \r\nb\n\n c"), strings(&["a", "b", "", "c"]));
    assert_eq!(trimmed_lines("x\n"), strings(&["x"]));
    assert!(trimmed_lines("").is_empty());
    assert!(text_contains("c++ (gcc)", "(gcc"));
    assert!(!text_contains("rust", "rusty"));
    assert!(text_contains("abc", ""));
    assert!(chars_contain(&vec!['a', 'b'], &vec!['b']));
    assert_eq!(count_matches("aaaa", "aa"), 2);
    assert_eq!(count_matches("abc", ""), 4);
    assert_eq!(count_matches("{\"\":1,\"\":2}", "\"\":"), 2);
    assert_eq!(count_matches("", "x"), 0);
    assert_eq!(count_matches("aaaa", "aa"), "aaaa".matches("aa").count());
}

#[test]
fn bench_tasks_are_runner_tasks() {
    let runner = get_tasks();
    for t in tasks() {
        assert!(["C", "C++", "Rust", "Python", "Java"].contains(&t.lang), "{}", t.mise);
        assert!(
            runner.iter().any(|g| g.mise_task == t.mise && g.language == t.lang && g.category == t.cat),
            "{}",
            t.mise
        );
    }
}

#[test]
fn joined_outputs_read_as_both() {
    let parts = [
        "matrix_mult: 12.5 ms\n# note\n",
        "",
        "Sort 100 elements/sec\r",
        "noise\nHash: 3 GB/s",
        "\n\n",
    ];
    for a in parts {
        for b in parts {
            let joined = format!("{}\n{}", a, b);
            let mut both = result_line_entries(a);
            both.extend(result_line_entries(b));
            assert_eq!(result_line_entries(&joined), both, "{:?} / {:?}", a, b);
            let mut times = time_line_entries(a);
            times.extend(time_line_entries(b));
            assert_eq!(time_line_entries(&joined), times, "{:?} / {:?}", a, b);
        }
    }
}

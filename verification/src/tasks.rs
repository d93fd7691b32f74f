//! The benchmark task tables of the runner and of the `bench` tool, the
//! monitor's batches, and the small decisions around running them.

use vstd::prelude::*;
use crate::strutil::{chars_of, text_contains, contains_text};
use crate::names::views;

verus! {

/// A benchmark run by the runner: display name, language, category, and the
/// `mise` task that builds and runs it.
#[derive(Clone, Copy)]
pub struct BenchmarkTask {
    pub name: &'static str,
    pub language: &'static str,
    pub category: &'static str,
    pub mise_task: &'static str,
}

/// The four texts of a runner task: name, language, category, `mise` task.
pub open spec fn runner_entry(t: BenchmarkTask) -> (Seq<char>, Seq<char>, Seq<char>, Seq<char>) {
    (t.name@, t.language@, t.category@, t.mise_task@)
}

/// The runner's benchmarks, in the order it runs them.
pub open spec fn runner_table() -> Seq<(Seq<char>, Seq<char>, Seq<char>, Seq<char>)> {
    seq![
        ("c-matrix"@, "C"@, "matrix"@, "c-matrix"@),
        ("cpp-matrix"@, "C++"@, "matrix"@, "cpp-matrix"@),
        ("rust-matrix"@, "Rust"@, "matrix"@, "rust-matrix"@),
        ("python-matrix"@, "Python"@, "matrix"@, "python-matrix"@),
        ("java-matrix"@, "Java"@, "matrix"@, "java-matrix"@),
        ("go-matrix"@, "Go"@, "matrix"@, "go-matrix"@),
        ("ruby-matrix"@, "Ruby"@, "matrix"@, "ruby-matrix"@),
        ("node-matrix"@, "Node"@, "matrix"@, "node-matrix"@),
        ("php-matrix"@, "PHP"@, "matrix"@, "php-matrix"@),
        ("zig-matrix"@, "Zig"@, "matrix"@, "zig-matrix"@),
        ("swift-matrix"@, "Swift"@, "matrix"@, "swift-matrix"@),
        ("kotlin-matrix"@, "Kotlin"@, "matrix"@, "kotlin-matrix"@),
        ("cs-matrix"@, "C#"@, "matrix"@, "cs-matrix"@),
        ("c-sort"@, "C"@, "sort"@, "c-sort"@),
        ("cpp-sort"@, "C++"@, "sort"@, "cpp-sort"@),
        ("rust-sort"@, "Rust"@, "sort"@, "rust-sort"@),
        ("python-sort"@, "Python"@, "sort"@, "python-sort"@),
        ("java-sort"@, "Java"@, "sort"@, "java-sort"@),
        ("go-sort"@, "Go"@, "sort"@, "go-sort"@),
        ("ruby-sort"@, "Ruby"@, "sort"@, "ruby-sort"@),
        ("node-sort"@, "Node"@, "sort"@, "node-sort"@),
        ("php-sort"@, "PHP"@, "sort"@, "php-sort"@),
        ("zig-sort"@, "Zig"@, "sort"@, "zig-sort"@),
        ("swift-sort"@, "Swift"@, "sort"@, "swift-sort"@),
        ("kotlin-sort"@, "Kotlin"@, "sort"@, "kotlin-sort"@),
        ("cs-sort"@, "C#"@, "sort"@, "cs-sort"@),
        ("c-string"@, "C"@, "string"@, "c-string"@),
        ("cpp-string"@, "C++"@, "string"@, "cpp-string"@),
        ("rust-string"@, "Rust"@, "string"@, "rust-string"@),
        ("python-string"@, "Python"@, "string"@, "python-string"@),
        ("java-string"@, "Java"@, "string"@, "java-string"@),
        ("go-string"@, "Go"@, "string"@, "go-string"@),
        ("ruby-string"@, "Ruby"@, "string"@, "ruby-string"@),
        ("node-string"@, "Node"@, "string"@, "node-string"@),
        ("php-string"@, "PHP"@, "string"@, "php-string"@),
        ("zig-string"@, "Zig"@, "string"@, "zig-string"@),
        ("swift-string"@, "Swift"@, "string"@, "swift-string"@),
        ("kotlin-string"@, "Kotlin"@, "string"@, "kotlin-string"@),
        ("cs-string"@, "C#"@, "string"@, "cs-string"@),
        ("c-hash"@, "C"@, "hash"@, "c-hash"@),
        ("cpp-hash"@, "C++"@, "hash"@, "cpp-hash"@),
        ("rust-hash"@, "Rust"@, "hash"@, "rust-hash"@),
        ("python-hash"@, "Python"@, "hash"@, "python-hash"@),
        ("java-hash"@, "Java"@, "hash"@, "java-hash"@),
        ("go-hash"@, "Go"@, "hash"@, "go-hash"@),
        ("ruby-hash"@, "Ruby"@, "hash"@, "ruby-hash"@),
        ("node-hash"@, "Node"@, "hash"@, "node-hash"@),
        ("php-hash"@, "PHP"@, "hash"@, "php-hash"@),
        ("zig-hash"@, "Zig"@, "hash"@, "zig-hash"@),
        ("swift-hash"@, "Swift"@, "hash"@, "swift-hash"@),
        ("kotlin-hash"@, "Kotlin"@, "hash"@, "kotlin-hash"@),
        ("cs-hash"@, "C#"@, "hash"@, "cs-hash"@),
        ("c-regex"@, "C"@, "regex"@, "c-regex"@),
        ("cpp-regex"@, "C++"@, "regex"@, "cpp-regex"@),
        ("rust-regex"@, "Rust"@, "regex"@, "rust-regex"@),
        ("python-regex"@, "Python"@, "regex"@, "python-regex"@),
        ("java-regex"@, "Java"@, "regex"@, "java-regex"@),
        ("go-regex"@, "Go"@, "regex"@, "go-regex"@),
        ("ruby-regex"@, "Ruby"@, "regex"@, "ruby-regex"@),
        ("cs-regex"@, "C#"@, "regex"@, "cs-regex"@),
        ("c-json"@, "C"@, "json"@, "c-json"@),
        ("cpp-json"@, "C++"@, "json"@, "cpp-json"@),
        ("rust-json"@, "Rust"@, "json"@, "rust-json"@),
        ("python-json"@, "Python"@, "json"@, "python-json"@),
        ("java-json"@, "Java"@, "json"@, "java-json"@),
        ("go-json"@, "Go"@, "json"@, "go-json"@),
        ("ruby-json"@, "Ruby"@, "json"@, "ruby-json"@),
        ("cs-json"@, "C#"@, "json"@, "cs-json"@),
        ("c-fileio"@, "C"@, "fileio"@, "c-fileio"@),
        ("cpp-fileio"@, "C++"@, "fileio"@, "cpp-fileio"@),
        ("rust-fileio"@, "Rust"@, "fileio"@, "rust-fileio"@),
        ("python-fileio"@, "Python"@, "fileio"@, "python-fileio"@),
        ("java-fileio"@, "Java"@, "fileio"@, "java-fileio"@),
        ("go-fileio"@, "Go"@, "fileio"@, "go-fileio"@),
        ("ruby-fileio"@, "Ruby"@, "fileio"@, "ruby-fileio"@),
        ("cs-fileio"@, "C#"@, "fileio"@, "cs-fileio"@),
        ("c-math"@, "C"@, "math"@, "c-math"@),
        ("cpp-math"@, "C++"@, "math"@, "cpp-math"@),
        ("rust-math"@, "Rust"@, "math"@, "rust-math"@),
        ("python-math"@, "Python"@, "math"@, "python-math"@),
        ("java-math"@, "Java"@, "math"@, "java-math"@),
        ("go-math"@, "Go"@, "math"@, "go-math"@),
        ("ruby-math"@, "Ruby"@, "math"@, "ruby-math"@),
        ("cs-math"@, "C#"@, "math"@, "cs-math"@),
        ("c-network"@, "C"@, "network"@, "c-network"@),
        ("cpp-network"@, "C++"@, "network"@, "cpp-network"@),
        ("rust-network"@, "Rust"@, "network"@, "rust-network"@),
        ("python-network"@, "Python"@, "network"@, "python-network"@),
        ("java-network"@, "Java"@, "network"@, "java-network"@),
        ("go-network"@, "Go"@, "network"@, "go-network"@),
        ("ruby-network"@, "Ruby"@, "network"@, "ruby-network"@),
        ("cs-network"@, "C#"@, "network"@, "cs-network"@),
        ("c-crypto"@, "C"@, "crypto"@, "c-crypto"@),
        ("cpp-crypto"@, "C++"@, "crypto"@, "cpp-crypto"@),
        ("rust-crypto"@, "Rust"@, "crypto"@, "rust-crypto"@),
        ("python-crypto"@, "Python"@, "crypto"@, "python-crypto"@),
        ("java-crypto"@, "Java"@, "crypto"@, "java-crypto"@),
        ("go-crypto"@, "Go"@, "crypto"@, "go-crypto"@),
        ("ruby-crypto"@, "Ruby"@, "crypto"@, "ruby-crypto"@),
        ("cs-crypto"@, "C#"@, "crypto"@, "cs-crypto"@),
        ("c-ml"@, "C"@, "ml"@, "c-ml"@),
        ("cpp-ml"@, "C++"@, "ml"@, "cpp-ml"@),
        ("rust-ml"@, "Rust"@, "ml"@, "rust-ml"@),
        ("python-ml"@, "Python"@, "ml"@, "python-ml"@),
        ("java-ml"@, "Java"@, "ml"@, "java-ml"@),
        ("go-ml"@, "Go"@, "ml"@, "go-ml"@),
        ("ruby-ml"@, "Ruby"@, "ml"@, "ruby-ml"@),
        ("cs-ml"@, "C#"@, "ml"@, "cs-ml"@),
        ("c-concurrency"@, "C"@, "concurrency"@, "c-concurrency"@),
        ("cpp-concurrency"@, "C++"@, "concurrency"@, "cpp-concurrency"@),
        ("rust-concurrency"@, "Rust"@, "concurrency"@, "rust-concurrency"@),
        ("python-async"@, "Python"@, "concurrency"@, "python-async"@),
        ("java-concurrency"@, "Java"@, "concurrency"@, "java-concurrency"@),
        ("go-concurrency"@, "Go"@, "concurrency"@, "go-concurrency"@),
        ("ruby-concurrency"@, "Ruby"@, "concurrency"@, "ruby-concurrency"@),
        ("cs-concurrency"@, "C#"@, "concurrency"@, "cs-concurrency"@),
        ("c-cpu"@, "C"@, "cpu"@, "c-cpu"@),
        ("cpp-cpu"@, "C++"@, "cpu"@, "cpp-cpu"@),
        ("rust-cpu"@, "Rust"@, "cpu"@, "rust-cpu"@),
        ("python-cpu"@, "Python"@, "cpu"@, "python-cpu"@),
        ("java-cpu"@, "Java"@, "cpu"@, "java-cpu"@),
        ("go-cpu"@, "Go"@, "cpu"@, "go-cpu"@),
        ("ruby-cpu"@, "Ruby"@, "cpu"@, "ruby-cpu"@),
        ("cs-cpu"@, "C#"@, "cpu"@, "cs-cpu"@),
        ("c-allocator"@, "C"@, "allocator"@, "c-allocator"@),
        ("cpp-allocator"@, "C++"@, "allocator"@, "cpp-allocator"@),
        ("rust-allocator"@, "Rust"@, "allocator"@, "rust-allocator"@),
        ("python-allocator"@, "Python"@, "allocator"@, "python-allocator"@),
        ("java-allocator"@, "Java"@, "allocator"@, "java-allocator"@),
        ("go-allocator"@, "Go"@, "allocator"@, "go-allocator"@),
        ("ruby-allocator"@, "Ruby"@, "allocator"@, "ruby-allocator"@),
        ("cs-allocator"@, "C#"@, "allocator"@, "cs-allocator"@),
    ]
}

/// The runner's task table: every language crossed with every category it
/// has an implementation for.
pub fn get_tasks() -> (tasks: Vec<BenchmarkTask>)
    ensures
        tasks@.map_values(|t: BenchmarkTask| runner_entry(t)) == runner_table(),
{
    vec![
        BenchmarkTask { name: "c-matrix", language: "C", category: "matrix", mise_task: "c-matrix" },
        BenchmarkTask { name: "cpp-matrix", language: "C++", category: "matrix", mise_task: "cpp-matrix" },
        BenchmarkTask { name: "rust-matrix", language: "Rust", category: "matrix", mise_task: "rust-matrix" },
        BenchmarkTask { name: "python-matrix", language: "Python", category: "matrix", mise_task: "python-matrix" },
        BenchmarkTask { name: "java-matrix", language: "Java", category: "matrix", mise_task: "java-matrix" },
        BenchmarkTask { name: "go-matrix", language: "Go", category: "matrix", mise_task: "go-matrix" },
        BenchmarkTask { name: "ruby-matrix", language: "Ruby", category: "matrix", mise_task: "ruby-matrix" },
        BenchmarkTask { name: "node-matrix", language: "Node", category: "matrix", mise_task: "node-matrix" },
        BenchmarkTask { name: "php-matrix", language: "PHP", category: "matrix", mise_task: "php-matrix" },
        BenchmarkTask { name: "zig-matrix", language: "Zig", category: "matrix", mise_task: "zig-matrix" },
        BenchmarkTask { name: "swift-matrix", language: "Swift", category: "matrix", mise_task: "swift-matrix" },
        BenchmarkTask { name: "kotlin-matrix", language: "Kotlin", category: "matrix", mise_task: "kotlin-matrix" },
        BenchmarkTask { name: "cs-matrix", language: "C#", category: "matrix", mise_task: "cs-matrix" },
        BenchmarkTask { name: "c-sort", language: "C", category: "sort", mise_task: "c-sort" },
        BenchmarkTask { name: "cpp-sort", language: "C++", category: "sort", mise_task: "cpp-sort" },
        BenchmarkTask { name: "rust-sort", language: "Rust", category: "sort", mise_task: "rust-sort" },
        BenchmarkTask { name: "python-sort", language: "Python", category: "sort", mise_task: "python-sort" },
        BenchmarkTask { name: "java-sort", language: "Java", category: "sort", mise_task: "java-sort" },
        BenchmarkTask { name: "go-sort", language: "Go", category: "sort", mise_task: "go-sort" },
        BenchmarkTask { name: "ruby-sort", language: "Ruby", category: "sort", mise_task: "ruby-sort" },
        BenchmarkTask { name: "node-sort", language: "Node", category: "sort", mise_task: "node-sort" },
        BenchmarkTask { name: "php-sort", language: "PHP", category: "sort", mise_task: "php-sort" },
        BenchmarkTask { name: "zig-sort", language: "Zig", category: "sort", mise_task: "zig-sort" },
        BenchmarkTask { name: "swift-sort", language: "Swift", category: "sort", mise_task: "swift-sort" },
        BenchmarkTask { name: "kotlin-sort", language: "Kotlin", category: "sort", mise_task: "kotlin-sort" },
        BenchmarkTask { name: "cs-sort", language: "C#", category: "sort", mise_task: "cs-sort" },
        BenchmarkTask { name: "c-string", language: "C", category: "string", mise_task: "c-string" },
        BenchmarkTask { name: "cpp-string", language: "C++", category: "string", mise_task: "cpp-string" },
        BenchmarkTask { name: "rust-string", language: "Rust", category: "string", mise_task: "rust-string" },
        BenchmarkTask { name: "python-string", language: "Python", category: "string", mise_task: "python-string" },
        BenchmarkTask { name: "java-string", language: "Java", category: "string", mise_task: "java-string" },
        BenchmarkTask { name: "go-string", language: "Go", category: "string", mise_task: "go-string" },
        BenchmarkTask { name: "ruby-string", language: "Ruby", category: "string", mise_task: "ruby-string" },
        BenchmarkTask { name: "node-string", language: "Node", category: "string", mise_task: "node-string" },
        BenchmarkTask { name: "php-string", language: "PHP", category: "string", mise_task: "php-string" },
        BenchmarkTask { name: "zig-string", language: "Zig", category: "string", mise_task: "zig-string" },
        BenchmarkTask { name: "swift-string", language: "Swift", category: "string", mise_task: "swift-string" },
        BenchmarkTask { name: "kotlin-string", language: "Kotlin", category: "string", mise_task: "kotlin-string" },
        BenchmarkTask { name: "cs-string", language: "C#", category: "string", mise_task: "cs-string" },
        BenchmarkTask { name: "c-hash", language: "C", category: "hash", mise_task: "c-hash" },
        BenchmarkTask { name: "cpp-hash", language: "C++", category: "hash", mise_task: "cpp-hash" },
        BenchmarkTask { name: "rust-hash", language: "Rust", category: "hash", mise_task: "rust-hash" },
        BenchmarkTask { name: "python-hash", language: "Python", category: "hash", mise_task: "python-hash" },
        BenchmarkTask { name: "java-hash", language: "Java", category: "hash", mise_task: "java-hash" },
        BenchmarkTask { name: "go-hash", language: "Go", category: "hash", mise_task: "go-hash" },
        BenchmarkTask { name: "ruby-hash", language: "Ruby", category: "hash", mise_task: "ruby-hash" },
        BenchmarkTask { name: "node-hash", language: "Node", category: "hash", mise_task: "node-hash" },
        BenchmarkTask { name: "php-hash", language: "PHP", category: "hash", mise_task: "php-hash" },
        BenchmarkTask { name: "zig-hash", language: "Zig", category: "hash", mise_task: "zig-hash" },
        BenchmarkTask { name: "swift-hash", language: "Swift", category: "hash", mise_task: "swift-hash" },
        BenchmarkTask { name: "kotlin-hash", language: "Kotlin", category: "hash", mise_task: "kotlin-hash" },
        BenchmarkTask { name: "cs-hash", language: "C#", category: "hash", mise_task: "cs-hash" },
        BenchmarkTask { name: "c-regex", language: "C", category: "regex", mise_task: "c-regex" },
        BenchmarkTask { name: "cpp-regex", language: "C++", category: "regex", mise_task: "cpp-regex" },
        BenchmarkTask { name: "rust-regex", language: "Rust", category: "regex", mise_task: "rust-regex" },
        BenchmarkTask { name: "python-regex", language: "Python", category: "regex", mise_task: "python-regex" },
        BenchmarkTask { name: "java-regex", language: "Java", category: "regex", mise_task: "java-regex" },
        BenchmarkTask { name: "go-regex", language: "Go", category: "regex", mise_task: "go-regex" },
        BenchmarkTask { name: "ruby-regex", language: "Ruby", category: "regex", mise_task: "ruby-regex" },
        BenchmarkTask { name: "cs-regex", language: "C#", category: "regex", mise_task: "cs-regex" },
        BenchmarkTask { name: "c-json", language: "C", category: "json", mise_task: "c-json" },
        BenchmarkTask { name: "cpp-json", language: "C++", category: "json", mise_task: "cpp-json" },
        BenchmarkTask { name: "rust-json", language: "Rust", category: "json", mise_task: "rust-json" },
        BenchmarkTask { name: "python-json", language: "Python", category: "json", mise_task: "python-json" },
        BenchmarkTask { name: "java-json", language: "Java", category: "json", mise_task: "java-json" },
        BenchmarkTask { name: "go-json", language: "Go", category: "json", mise_task: "go-json" },
        BenchmarkTask { name: "ruby-json", language: "Ruby", category: "json", mise_task: "ruby-json" },
        BenchmarkTask { name: "cs-json", language: "C#", category: "json", mise_task: "cs-json" },
        BenchmarkTask { name: "c-fileio", language: "C", category: "fileio", mise_task: "c-fileio" },
        BenchmarkTask { name: "cpp-fileio", language: "C++", category: "fileio", mise_task: "cpp-fileio" },
        BenchmarkTask { name: "rust-fileio", language: "Rust", category: "fileio", mise_task: "rust-fileio" },
        BenchmarkTask { name: "python-fileio", language: "Python", category: "fileio", mise_task: "python-fileio" },
        BenchmarkTask { name: "java-fileio", language: "Java", category: "fileio", mise_task: "java-fileio" },
        BenchmarkTask { name: "go-fileio", language: "Go", category: "fileio", mise_task: "go-fileio" },
        BenchmarkTask { name: "ruby-fileio", language: "Ruby", category: "fileio", mise_task: "ruby-fileio" },
        BenchmarkTask { name: "cs-fileio", language: "C#", category: "fileio", mise_task: "cs-fileio" },
        BenchmarkTask { name: "c-math", language: "C", category: "math", mise_task: "c-math" },
        BenchmarkTask { name: "cpp-math", language: "C++", category: "math", mise_task: "cpp-math" },
        BenchmarkTask { name: "rust-math", language: "Rust", category: "math", mise_task: "rust-math" },
        BenchmarkTask { name: "python-math", language: "Python", category: "math", mise_task: "python-math" },
        BenchmarkTask { name: "java-math", language: "Java", category: "math", mise_task: "java-math" },
        BenchmarkTask { name: "go-math", language: "Go", category: "math", mise_task: "go-math" },
        BenchmarkTask { name: "ruby-math", language: "Ruby", category: "math", mise_task: "ruby-math" },
        BenchmarkTask { name: "cs-math", language: "C#", category: "math", mise_task: "cs-math" },
        BenchmarkTask { name: "c-network", language: "C", category: "network", mise_task: "c-network" },
        BenchmarkTask { name: "cpp-network", language: "C++", category: "network", mise_task: "cpp-network" },
        BenchmarkTask { name: "rust-network", language: "Rust", category: "network", mise_task: "rust-network" },
        BenchmarkTask { name: "python-network", language: "Python", category: "network", mise_task: "python-network" },
        BenchmarkTask { name: "java-network", language: "Java", category: "network", mise_task: "java-network" },
        BenchmarkTask { name: "go-network", language: "Go", category: "network", mise_task: "go-network" },
        BenchmarkTask { name: "ruby-network", language: "Ruby", category: "network", mise_task: "ruby-network" },
        BenchmarkTask { name: "cs-network", language: "C#", category: "network", mise_task: "cs-network" },
        BenchmarkTask { name: "c-crypto", language: "C", category: "crypto", mise_task: "c-crypto" },
        BenchmarkTask { name: "cpp-crypto", language: "C++", category: "crypto", mise_task: "cpp-crypto" },
        BenchmarkTask { name: "rust-crypto", language: "Rust", category: "crypto", mise_task: "rust-crypto" },
        BenchmarkTask { name: "python-crypto", language: "Python", category: "crypto", mise_task: "python-crypto" },
        BenchmarkTask { name: "java-crypto", language: "Java", category: "crypto", mise_task: "java-crypto" },
        BenchmarkTask { name: "go-crypto", language: "Go", category: "crypto", mise_task: "go-crypto" },
        BenchmarkTask { name: "ruby-crypto", language: "Ruby", category: "crypto", mise_task: "ruby-crypto" },
        BenchmarkTask { name: "cs-crypto", language: "C#", category: "crypto", mise_task: "cs-crypto" },
        BenchmarkTask { name: "c-ml", language: "C", category: "ml", mise_task: "c-ml" },
        BenchmarkTask { name: "cpp-ml", language: "C++", category: "ml", mise_task: "cpp-ml" },
        BenchmarkTask { name: "rust-ml", language: "Rust", category: "ml", mise_task: "rust-ml" },
        BenchmarkTask { name: "python-ml", language: "Python", category: "ml", mise_task: "python-ml" },
        BenchmarkTask { name: "java-ml", language: "Java", category: "ml", mise_task: "java-ml" },
        BenchmarkTask { name: "go-ml", language: "Go", category: "ml", mise_task: "go-ml" },
        BenchmarkTask { name: "ruby-ml", language: "Ruby", category: "ml", mise_task: "ruby-ml" },
        BenchmarkTask { name: "cs-ml", language: "C#", category: "ml", mise_task: "cs-ml" },
        BenchmarkTask { name: "c-concurrency", language: "C", category: "concurrency", mise_task: "c-concurrency" },
        BenchmarkTask { name: "cpp-concurrency", language: "C++", category: "concurrency", mise_task: "cpp-concurrency" },
        BenchmarkTask { name: "rust-concurrency", language: "Rust", category: "concurrency", mise_task: "rust-concurrency" },
        BenchmarkTask { name: "python-async", language: "Python", category: "concurrency", mise_task: "python-async" },
        BenchmarkTask { name: "java-concurrency", language: "Java", category: "concurrency", mise_task: "java-concurrency" },
        BenchmarkTask { name: "go-concurrency", language: "Go", category: "concurrency", mise_task: "go-concurrency" },
        BenchmarkTask { name: "ruby-concurrency", language: "Ruby", category: "concurrency", mise_task: "ruby-concurrency" },
        BenchmarkTask { name: "cs-concurrency", language: "C#", category: "concurrency", mise_task: "cs-concurrency" },
        BenchmarkTask { name: "c-cpu", language: "C", category: "cpu", mise_task: "c-cpu" },
        BenchmarkTask { name: "cpp-cpu", language: "C++", category: "cpu", mise_task: "cpp-cpu" },
        BenchmarkTask { name: "rust-cpu", language: "Rust", category: "cpu", mise_task: "rust-cpu" },
        BenchmarkTask { name: "python-cpu", language: "Python", category: "cpu", mise_task: "python-cpu" },
        BenchmarkTask { name: "java-cpu", language: "Java", category: "cpu", mise_task: "java-cpu" },
        BenchmarkTask { name: "go-cpu", language: "Go", category: "cpu", mise_task: "go-cpu" },
        BenchmarkTask { name: "ruby-cpu", language: "Ruby", category: "cpu", mise_task: "ruby-cpu" },
        BenchmarkTask { name: "cs-cpu", language: "C#", category: "cpu", mise_task: "cs-cpu" },
        BenchmarkTask { name: "c-allocator", language: "C", category: "allocator", mise_task: "c-allocator" },
        BenchmarkTask { name: "cpp-allocator", language: "C++", category: "allocator", mise_task: "cpp-allocator" },
        BenchmarkTask { name: "rust-allocator", language: "Rust", category: "allocator", mise_task: "rust-allocator" },
        BenchmarkTask { name: "python-allocator", language: "Python", category: "allocator", mise_task: "python-allocator" },
        BenchmarkTask { name: "java-allocator", language: "Java", category: "allocator", mise_task: "java-allocator" },
        BenchmarkTask { name: "go-allocator", language: "Go", category: "allocator", mise_task: "go-allocator" },
        BenchmarkTask { name: "ruby-allocator", language: "Ruby", category: "allocator", mise_task: "ruby-allocator" },
        BenchmarkTask { name: "cs-allocator", language: "C#", category: "allocator", mise_task: "cs-allocator" },
    ]
}

/// A benchmark of the `bench` tool: its `mise` task, language and category.
#[derive(Clone, Copy)]
pub struct Task {
    pub mise: &'static str,
    pub lang: &'static str,
    pub cat: &'static str,
}

/// The three texts of a `bench` task: `mise` task, language, category.
pub open spec fn bench_entry(t: Task) -> (Seq<char>, Seq<char>, Seq<char>) {
    (t.mise@, t.lang@, t.cat@)
}

/// The `bench` tool's benchmarks, in the order it runs them.
pub open spec fn bench_table() -> Seq<(Seq<char>, Seq<char>, Seq<char>)> {
    seq![
        ("c-matrix"@, "C"@, "matrix"@),
        ("cpp-matrix"@, "C++"@, "matrix"@),
        ("rust-matrix"@, "Rust"@, "matrix"@),
        ("python-matrix"@, "Python"@, "matrix"@),
        ("java-matrix"@, "Java"@, "matrix"@),
        ("c-sort"@, "C"@, "sort"@),
        ("cpp-sort"@, "C++"@, "sort"@),
        ("rust-sort"@, "Rust"@, "sort"@),
        ("python-sort"@, "Python"@, "sort"@),
        ("java-sort"@, "Java"@, "sort"@),
        ("c-string"@, "C"@, "string"@),
        ("cpp-string"@, "C++"@, "string"@),
        ("rust-string"@, "Rust"@, "string"@),
        ("python-string"@, "Python"@, "string"@),
        ("java-string"@, "Java"@, "string"@),
        ("c-hash"@, "C"@, "hash"@),
        ("cpp-hash"@, "C++"@, "hash"@),
        ("rust-hash"@, "Rust"@, "hash"@),
        ("python-hash"@, "Python"@, "hash"@),
        ("java-hash"@, "Java"@, "hash"@),
        ("c-regex"@, "C"@, "regex"@),
        ("cpp-regex"@, "C++"@, "regex"@),
        ("rust-regex"@, "Rust"@, "regex"@),
        ("python-regex"@, "Python"@, "regex"@),
        ("java-regex"@, "Java"@, "regex"@),
        ("c-json"@, "C"@, "json"@),
        ("cpp-json"@, "C++"@, "json"@),
        ("rust-json"@, "Rust"@, "json"@),
        ("python-json"@, "Python"@, "json"@),
        ("java-json"@, "Java"@, "json"@),
        ("c-fileio"@, "C"@, "fileio"@),
        ("cpp-fileio"@, "C++"@, "fileio"@),
        ("rust-fileio"@, "Rust"@, "fileio"@),
        ("python-fileio"@, "Python"@, "fileio"@),
        ("java-fileio"@, "Java"@, "fileio"@),
        ("c-math"@, "C"@, "math"@),
        ("cpp-math"@, "C++"@, "math"@),
        ("rust-math"@, "Rust"@, "math"@),
        ("python-math"@, "Python"@, "math"@),
        ("java-math"@, "Java"@, "math"@),
        ("c-crypto"@, "C"@, "crypto"@),
        ("cpp-crypto"@, "C++"@, "crypto"@),
        ("rust-crypto"@, "Rust"@, "crypto"@),
        ("python-crypto"@, "Python"@, "crypto"@),
        ("java-crypto"@, "Java"@, "crypto"@),
        ("c-cpu"@, "C"@, "cpu"@),
        ("cpp-cpu"@, "C++"@, "cpu"@),
        ("rust-cpu"@, "Rust"@, "cpu"@),
        ("python-cpu"@, "Python"@, "cpu"@),
        ("java-cpu"@, "Java"@, "cpu"@),
        ("c-network"@, "C"@, "network"@),
        ("cpp-network"@, "C++"@, "network"@),
        ("rust-network"@, "Rust"@, "network"@),
        ("python-network"@, "Python"@, "network"@),
        ("c-ml"@, "C"@, "ml"@),
        ("rust-ml"@, "Rust"@, "ml"@),
        ("python-ml"@, "Python"@, "ml"@),
        ("c-concurrency"@, "C"@, "concurrency"@),
        ("cpp-concurrency"@, "C++"@, "concurrency"@),
        ("rust-concurrency"@, "Rust"@, "concurrency"@),
        ("java-concurrency"@, "Java"@, "concurrency"@),
    ]
}

/// The `bench` tool's task table.
pub fn tasks() -> (tasks: Vec<Task>)
    ensures
        tasks@.map_values(|t: Task| bench_entry(t)) == bench_table(),
{
    vec![
        Task { mise: "c-matrix", lang: "C", cat: "matrix" },
        Task { mise: "cpp-matrix", lang: "C++", cat: "matrix" },
        Task { mise: "rust-matrix", lang: "Rust", cat: "matrix" },
        Task { mise: "python-matrix", lang: "Python", cat: "matrix" },
        Task { mise: "java-matrix", lang: "Java", cat: "matrix" },
        Task { mise: "c-sort", lang: "C", cat: "sort" },
        Task { mise: "cpp-sort", lang: "C++", cat: "sort" },
        Task { mise: "rust-sort", lang: "Rust", cat: "sort" },
        Task { mise: "python-sort", lang: "Python", cat: "sort" },
        Task { mise: "java-sort", lang: "Java", cat: "sort" },
        Task { mise: "c-string", lang: "C", cat: "string" },
        Task { mise: "cpp-string", lang: "C++", cat: "string" },
        Task { mise: "rust-string", lang: "Rust", cat: "string" },
        Task { mise: "python-string", lang: "Python", cat: "string" },
        Task { mise: "java-string", lang: "Java", cat: "string" },
        Task { mise: "c-hash", lang: "C", cat: "hash" },
        Task { mise: "cpp-hash", lang: "C++", cat: "hash" },
        Task { mise: "rust-hash", lang: "Rust", cat: "hash" },
        Task { mise: "python-hash", lang: "Python", cat: "hash" },
        Task { mise: "java-hash", lang: "Java", cat: "hash" },
        Task { mise: "c-regex", lang: "C", cat: "regex" },
        Task { mise: "cpp-regex", lang: "C++", cat: "regex" },
        Task { mise: "rust-regex", lang: "Rust", cat: "regex" },
        Task { mise: "python-regex", lang: "Python", cat: "regex" },
        Task { mise: "java-regex", lang: "Java", cat: "regex" },
        Task { mise: "c-json", lang: "C", cat: "json" },
        Task { mise: "cpp-json", lang: "C++", cat: "json" },
        Task { mise: "rust-json", lang: "Rust", cat: "json" },
        Task { mise: "python-json", lang: "Python", cat: "json" },
        Task { mise: "java-json", lang: "Java", cat: "json" },
        Task { mise: "c-fileio", lang: "C", cat: "fileio" },
        Task { mise: "cpp-fileio", lang: "C++", cat: "fileio" },
        Task { mise: "rust-fileio", lang: "Rust", cat: "fileio" },
        Task { mise: "python-fileio", lang: "Python", cat: "fileio" },
        Task { mise: "java-fileio", lang: "Java", cat: "fileio" },
        Task { mise: "c-math", lang: "C", cat: "math" },
        Task { mise: "cpp-math", lang: "C++", cat: "math" },
        Task { mise: "rust-math", lang: "Rust", cat: "math" },
        Task { mise: "python-math", lang: "Python", cat: "math" },
        Task { mise: "java-math", lang: "Java", cat: "math" },
        Task { mise: "c-crypto", lang: "C", cat: "crypto" },
        Task { mise: "cpp-crypto", lang: "C++", cat: "crypto" },
        Task { mise: "rust-crypto", lang: "Rust", cat: "crypto" },
        Task { mise: "python-crypto", lang: "Python", cat: "crypto" },
        Task { mise: "java-crypto", lang: "Java", cat: "crypto" },
        Task { mise: "c-cpu", lang: "C", cat: "cpu" },
        Task { mise: "cpp-cpu", lang: "C++", cat: "cpu" },
        Task { mise: "rust-cpu", lang: "Rust", cat: "cpu" },
        Task { mise: "python-cpu", lang: "Python", cat: "cpu" },
        Task { mise: "java-cpu", lang: "Java", cat: "cpu" },
        Task { mise: "c-network", lang: "C", cat: "network" },
        Task { mise: "cpp-network", lang: "C++", cat: "network" },
        Task { mise: "rust-network", lang: "Rust", cat: "network" },
        Task { mise: "python-network", lang: "Python", cat: "network" },
        Task { mise: "c-ml", lang: "C", cat: "ml" },
        Task { mise: "rust-ml", lang: "Rust", cat: "ml" },
        Task { mise: "python-ml", lang: "Python", cat: "ml" },
        Task { mise: "c-concurrency", lang: "C", cat: "concurrency" },
        Task { mise: "cpp-concurrency", lang: "C++", cat: "concurrency" },
        Task { mise: "rust-concurrency", lang: "Rust", cat: "concurrency" },
        Task { mise: "java-concurrency", lang: "Java", cat: "concurrency" },
    ]
}


/// `category` is one of `categories`.
pub open spec fn selected_by(categories: Seq<Seq<char>>, category: Seq<char>) -> bool {
    categories.contains(category)
}

/// Whether `category` is one of `categories`.
pub fn in_categories(categories: &Vec<String>, category: &str) -> (b: bool)
    ensures
        b == selected_by(views(categories@), category@),
{
    broadcast use vstd::string::group_string_axioms;
    let c = category.to_string();
    let mut i: usize = 0;
    while i < categories.len()
        invariant
            i <= categories@.len(),
            c@ == category@,
            forall|k: int| 0 <= k < i ==> #[trigger] categories@[k]@ != category@,
        decreases categories@.len() - i,
    {
        if categories[i] == c {
            proof {
                assert(views(categories@)[i as int] == category@);
            }
            return true;
        }
        i = i + 1;
    }
    proof {
        if views(categories@).contains(category@) {
            let k = choose|k: int| 0 <= k < views(categories@).len() && views(categories@)[k] == category@;
            assert(categories@[k]@ == category@);
        }
    }
    false
}

/// The runner tasks to run: all of them, or those whose category is listed.
pub open spec fn runner_selection(tasks: Seq<BenchmarkTask>, categories: Option<Seq<Seq<char>>>) -> Seq<BenchmarkTask> {
    match categories {
        None => tasks,
        Some(cs) => tasks.filter(|t: BenchmarkTask| selected_by(cs, t.category@)),
    }
}

/// The runner tasks of the chosen categories (all, when none are given), in
/// table order.
pub fn filter_runner_tasks(tasks: &Vec<BenchmarkTask>, categories: &Option<Vec<String>>) -> (r: Vec<BenchmarkTask>)
    ensures
        r@ == runner_selection(tasks@, match categories {
            Some(cs) => Some(views(cs@)),
            None => None,
        }),
{
    match categories {
        None => tasks.clone(),
        Some(cs) => {
            let ghost pred = |t: BenchmarkTask| selected_by(views(cs@), t.category@);
            let mut r: Vec<BenchmarkTask> = Vec::new();
            let mut i: usize = 0;
            while i < tasks.len()
                invariant
                    i <= tasks@.len(),
                    pred == |t: BenchmarkTask| selected_by(views(cs@), t.category@),
                    r@ == tasks@.take(i as int).filter(pred),
                decreases tasks@.len() - i,
            {
                let t = tasks[i];
                proof {
                    assert(tasks@.take(i + 1) =~= tasks@.take(i as int).push(t));
                    tasks@.take(i as int).lemma_filter_push(t, pred);
                }
                if in_categories(cs, t.category) {
                    r.push(t);
                }
                i = i + 1;
            }
            proof {
                assert(tasks@.take(tasks@.len() as int) =~= tasks@);
            }
            r
        },
    }
}

/// The `bench` tasks to run: all of them, or those whose category is listed.
pub open spec fn bench_selection(tasks: Seq<Task>, categories: Option<Seq<Seq<char>>>) -> Seq<Task> {
    match categories {
        None => tasks,
        Some(cs) => tasks.filter(|t: Task| selected_by(cs, t.cat@)),
    }
}

/// The `bench` tasks of the chosen categories (all, when none are given),
/// in table order.
pub fn filter_bench_tasks(tasks: &Vec<Task>, categories: &Option<Vec<String>>) -> (r: Vec<Task>)
    ensures
        r@ == bench_selection(tasks@, match categories {
            Some(cs) => Some(views(cs@)),
            None => None,
        }),
{
    match categories {
        None => tasks.clone(),
        Some(cs) => {
            let ghost pred = |t: Task| selected_by(views(cs@), t.cat@);
            let mut r: Vec<Task> = Vec::new();
            let mut i: usize = 0;
            while i < tasks.len()
                invariant
                    i <= tasks@.len(),
                    pred == |t: Task| selected_by(views(cs@), t.cat@),
                    r@ == tasks@.take(i as int).filter(pred),
                decreases tasks@.len() - i,
            {
                let t = tasks[i];
                proof {
                    assert(tasks@.take(i + 1) =~= tasks@.take(i as int).push(t));
                    tasks@.take(i as int).lemma_filter_push(t, pred);
                }
                if in_categories(cs, t.cat) {
                    r.push(t);
                }
                i = i + 1;
            }
            proof {
                assert(tasks@.take(tasks@.len() as int) =~= tasks@);
            }
            r
        },
    }
}

/// The status a run is closed with: `completed` when nothing failed,
/// `partial` otherwise.
pub fn run_status(failed: usize) -> (s: &'static str)
    ensures
        s@ == (if failed == 0 { "completed"@ } else { "partial"@ }),
{
    if failed == 0 {
        "completed"
    } else {
        "partial"
    }
}

/// The category the monitor files a `just` task under, from its name.
pub open spec fn task_category_spec(task: Seq<char>) -> Seq<char> {
    if contains_text(task, "matrix"@) {
        "matrix"@
    } else if contains_text(task, "sort"@) {
        "sort"@
    } else if contains_text(task, "string"@) {
        "string"@
    } else if contains_text(task, "hash"@) {
        "hash"@
    } else if contains_text(task, "regex"@) {
        "regex"@
    } else {
        "other"@
    }
}

/// Where the monitor files a task, by its name: under `matrix` when the
/// name contains it; else under the first of `sort`, `string`, `hash` and
/// `regex` that it contains; under `other` when it contains none. A task is
/// never filed under a category its name does not contain, but `other`.
pub proof fn task_category_by_name(t: Seq<char>)
    ensures
        contains_text(t, "matrix"@) ==> task_category_spec(t) == "matrix"@,
        !contains_text(t, "matrix"@) && contains_text(t, "sort"@) ==> task_category_spec(t) == "sort"@,
        !contains_text(t, "matrix"@) && !contains_text(t, "sort"@) && contains_text(t, "string"@)
            ==> task_category_spec(t) == "string"@,
        !contains_text(t, "matrix"@) && !contains_text(t, "sort"@) && !contains_text(t, "string"@)
            && contains_text(t, "hash"@) ==> task_category_spec(t) == "hash"@,
        !contains_text(t, "matrix"@) && !contains_text(t, "sort"@) && !contains_text(t, "string"@)
            && !contains_text(t, "hash"@) && contains_text(t, "regex"@) ==> task_category_spec(t) == "regex"@,
        !contains_text(t, "matrix"@) && !contains_text(t, "sort"@) && !contains_text(t, "string"@)
            && !contains_text(t, "hash"@) && !contains_text(t, "regex"@) ==> task_category_spec(t) == "other"@,
        task_category_spec(t) == "other"@ || contains_text(t, task_category_spec(t)),
{
}

/// The category of a monitor task: the first of `matrix`, `sort`, `string`,
/// `hash`, `regex` that its name contains, else `other`.
pub fn task_category(task: &str) -> (c: &'static str)
    ensures
        c@ == task_category_spec(task@),
{
    if text_contains(task, "matrix") {
        "matrix"
    } else if text_contains(task, "sort") {
        "sort"
    } else if text_contains(task, "string") {
        "string"
    } else if text_contains(task, "hash") {
        "hash"
    } else if text_contains(task, "regex") {
        "regex"
    } else {
        "other"
    }
}


/// A group of `just` tasks the monitor can run, and whether it is selected.
pub struct TestBatch {
    pub name: String,
    pub just_tasks: Vec<String>,
    pub enabled: bool,
}

/// The texts and flag of a batch.
pub open spec fn batch_view(b: TestBatch) -> (Seq<char>, Seq<Seq<char>>, bool) {
    (b.name@, views(b.just_tasks@), b.enabled)
}

/// The monitor's batches as it starts.
pub open spec fn batch_table() -> Seq<(Seq<char>, Seq<Seq<char>>, bool)> {
    seq![
        ("All"@, seq!["all"@], false),
        ("C (clang)"@, seq!["c-matrix"@, "c-sort"@, "c-string"@, "c-hash"@, "c-regex"@], true),
        ("C (gcc)"@, seq!["gcc-matrix"@, "gcc-sort"@, "gcc-string"@, "gcc-hash"@, "gcc-regex"@], true),
        ("C++ (clang)"@, seq!["cpp-matrix"@, "cpp-sort"@, "cpp-string"@, "cpp-hash"@, "cpp-regex"@], true),
        ("C++ (gcc)"@, seq!["gxx-matrix"@, "gxx-sort"@, "gxx-string"@, "gxx-hash"@, "gxx-regex"@], true),
        ("Rust"@, seq!["rust-matrix"@, "rust-sort"@, "rust-string"@, "rust-hash"@, "rust-regex"@], true),
        ("Python"@, seq!["python-matrix"@, "python-sort"@, "python-string"@, "python-hash"@, "python-regex"@], true),
        ("Java"@, seq!["java-matrix"@, "java-sort"@, "java-string"@, "java-hash"@, "java-regex"@], true),
        ("C#"@, seq!["cs-matrix"@, "cs-sort"@, "cs-string"@], false),
    ]
}

/// The texts of a list of `&str`.
pub open spec fn str_views(v: Seq<&str>) -> Seq<Seq<char>> {
    v.map_values(|s: &str| s@)
}

fn make_batch(name: &str, tasks: &[&str], enabled: bool) -> (b: TestBatch)
    ensures
        batch_view(b) == (name@, str_views(tasks@), enabled),
{
    broadcast use vstd::string::group_string_axioms;
    let mut just_tasks: Vec<String> = Vec::new();
    let mut i: usize = 0;
    while i < tasks.len()
        invariant
            i <= tasks@.len(),
            views(just_tasks@) == str_views(tasks@.take(i as int)),
        decreases tasks@.len() - i,
    {
        let t = tasks[i].to_string();
        let ghost before = just_tasks@;
        just_tasks.push(t);
        proof {
            assert(views(just_tasks@) =~= views(before).push(t@));
            assert(str_views(tasks@.take(i + 1)) =~= str_views(tasks@.take(i as int)).push(tasks@[i as int]@));
        }
        i = i + 1;
    }
    proof {
        assert(tasks@.take(tasks@.len() as int) =~= tasks@);
    }
    TestBatch { name: name.to_string(), just_tasks, enabled }
}

/// The batches the monitor starts with: all tasks, then one batch per
/// compiler or language.
pub fn default_batches() -> (batches: Vec<TestBatch>)
    ensures
        batches@.map_values(|b: TestBatch| batch_view(b)) == batch_table(),
{
    let mut batches: Vec<TestBatch> = Vec::new();
    batches.push(make_batch("All", &["all"], false));
    batches.push(make_batch("C (clang)", &["c-matrix", "c-sort", "c-string", "c-hash", "c-regex"], true));
    batches.push(make_batch("C (gcc)", &["gcc-matrix", "gcc-sort", "gcc-string", "gcc-hash", "gcc-regex"], true));
    batches.push(make_batch("C++ (clang)", &["cpp-matrix", "cpp-sort", "cpp-string", "cpp-hash", "cpp-regex"], true));
    batches.push(make_batch("C++ (gcc)", &["gxx-matrix", "gxx-sort", "gxx-string", "gxx-hash", "gxx-regex"], true));
    batches.push(make_batch("Rust", &["rust-matrix", "rust-sort", "rust-string", "rust-hash", "rust-regex"], true));
    batches.push(make_batch("Python", &["python-matrix", "python-sort", "python-string", "python-hash", "python-regex"], true));
    batches.push(make_batch("Java", &["java-matrix", "java-sort", "java-string", "java-hash", "java-regex"], true));
    batches.push(make_batch("C#", &["cs-matrix", "cs-sort", "cs-string"], false));
    proof {
        assert forall|k: int| 0 <= k < 9 implies batch_view(#[trigger] batches@[k]) == batch_table()[k] by {
            assert(batch_view(batches@[0]) == batch_table()[0]);
            assert(batch_view(batches@[1]) == batch_table()[1]);
            assert(batch_view(batches@[2]) == batch_table()[2]);
            assert(batch_view(batches@[3]) == batch_table()[3]);
            assert(batch_view(batches@[4]) == batch_table()[4]);
            assert(batch_view(batches@[5]) == batch_table()[5]);
            assert(batch_view(batches@[6]) == batch_table()[6]);
            assert(batch_view(batches@[7]) == batch_table()[7]);
            assert(batch_view(batches@[8]) == batch_table()[8]);
        }
        assert(batches@.map_values(|b: TestBatch| batch_view(b)) =~= batch_table());
    }
    batches
}

/// Batch `b` with its selection set to `enabled`.
pub open spec fn with_enabled(b: TestBatch, enabled: bool) -> TestBatch {
    TestBatch { enabled, ..b }
}

/// Flips whether batch `i` is selected; the others stay as they are.
pub fn toggle_batch(batches: &mut Vec<TestBatch>, i: usize)
    requires
        i < old(batches)@.len(),
    ensures
        final(batches)@ == old(batches)@.update(i as int, with_enabled(old(batches)@[i as int], !old(batches)@[i as int].enabled)),
{
    let e = batches[i].enabled;
    batches[i].enabled = !e;
}

/// Toggling the same batch twice leaves the batches as they were.
pub proof fn toggle_twice_restores(batches: Seq<TestBatch>, i: int)
    requires
        0 <= i < batches.len(),
    ensures
        ({
            let once = batches.update(i, with_enabled(batches[i], !batches[i].enabled));
            once.update(i, with_enabled(once[i], !once[i].enabled))
        }) == batches,
{
    let once = batches.update(i, with_enabled(batches[i], !batches[i].enabled));
    assert(once.update(i, with_enabled(once[i], !once[i].enabled)) =~= batches);
}

/// Selects every batch, or none.
pub fn set_all_batches(batches: &mut Vec<TestBatch>, enabled: bool)
    ensures
        final(batches)@ == old(batches)@.map_values(|b: TestBatch| with_enabled(b, enabled)),
{
    let ghost start = batches@;
    let mut i: usize = 0;
    while i < batches.len()
        invariant
            i <= batches@.len(),
            batches@.len() == start.len(),
            forall|k: int| 0 <= k < i ==> #[trigger] batches@[k] == with_enabled(start[k], enabled),
            forall|k: int| i <= k < start.len() ==> #[trigger] batches@[k] == start[k],
        decreases start.len() - i,
    {
        batches[i].enabled = enabled;
        i = i + 1;
    }
    proof {
        assert(batches@ =~= start.map_values(|b: TestBatch| with_enabled(b, enabled)));
    }
}

/// The number of selected batches.
pub open spec fn enabled_count_spec(batches: Seq<TestBatch>) -> nat
    decreases batches.len(),
{
    if batches.len() == 0 {
        0
    } else {
        enabled_count_spec(batches.drop_last()) + if batches.last().enabled { 1nat } else { 0nat }
    }
}

/// The number of tasks over the selected batches.
pub open spec fn enabled_tasks_spec(batches: Seq<TestBatch>) -> nat
    decreases batches.len(),
{
    if batches.len() == 0 {
        0
    } else {
        enabled_tasks_spec(batches.drop_last()) + if batches.last().enabled {
            batches.last().just_tasks@.len()
        } else {
            0nat
        }
    }
}

/// How many batches are selected.
pub fn enabled_batch_count(batches: &Vec<TestBatch>) -> (n: usize)
    ensures
        n == enabled_count_spec(batches@),
{
    let mut n: usize = 0;
    let mut i: usize = 0;
    while i < batches.len()
        invariant
            i <= batches@.len(),
            n == enabled_count_spec(batches@.take(i as int)),
            n <= i,
        decreases batches@.len() - i,
    {
        proof {
            assert(batches@.take(i + 1).drop_last() =~= batches@.take(i as int));
        }
        if batches[i].enabled {
            n = n + 1;
        }
        i = i + 1;
    }
    proof {
        assert(batches@.take(batches@.len() as int) =~= batches@);
    }
    n
}

proof fn lemma_enabled_tasks_prefix(batches: Seq<TestBatch>, i: int)
    requires
        0 <= i <= batches.len(),
    ensures
        enabled_tasks_spec(batches.take(i)) <= enabled_tasks_spec(batches),
    decreases batches.len() - i,
{
    if i < batches.len() {
        lemma_enabled_tasks_prefix(batches, i + 1);
        assert(batches.take(i + 1).drop_last() =~= batches.take(i));
    } else {
        assert(batches.take(i) =~= batches);
    }
}

/// How many tasks the selected batches hold together.
pub fn enabled_task_count(batches: &Vec<TestBatch>) -> (n: usize)
    requires
        enabled_tasks_spec(batches@) <= usize::MAX,
    ensures
        n == enabled_tasks_spec(batches@),
{
    let mut n: usize = 0;
    let mut i: usize = 0;
    while i < batches.len()
        invariant
            i <= batches@.len(),
            enabled_tasks_spec(batches@) <= usize::MAX,
            n == enabled_tasks_spec(batches@.take(i as int)),
        decreases batches@.len() - i,
    {
        proof {
            assert(batches@.take(i + 1).drop_last() =~= batches@.take(i as int));
            lemma_enabled_tasks_prefix(batches@, i + 1);
        }
        if batches[i].enabled {
            n = n + batches[i].just_tasks.len();
        }
        i = i + 1;
    }
    proof {
        assert(batches@.take(batches@.len() as int) =~= batches@);
    }
    n
}

/// What running batch `b` schedules: each of its tasks with the batch's
/// name and the task's category, when it is selected; nothing otherwise.
pub open spec fn batch_plan(b: TestBatch) -> Seq<(Seq<char>, Seq<char>, Seq<char>)> {
    if b.enabled {
        views(b.just_tasks@).map_values(|t: Seq<char>| (t, b.name@, task_category_spec(t)))
    } else {
        Seq::empty()
    }
}

/// What running the batches schedules, batch after batch.
pub open spec fn plan_of(batches: Seq<TestBatch>) -> Seq<(Seq<char>, Seq<char>, Seq<char>)>
    decreases batches.len(),
{
    if batches.len() == 0 {
        Seq::empty()
    } else {
        plan_of(batches.drop_last()) + batch_plan(batches.last())
    }
}

/// The texts of a run plan.
pub open spec fn plan_view(p: Seq<(String, String, &'static str)>) -> Seq<(Seq<char>, Seq<char>, Seq<char>)> {
    p.map_values(|e: (String, String, &'static str)| (e.0@, e.1@, e.2@))
}

/// The tasks of the selected batches, in order, each with the name of its
/// batch and the category its results are filed under.
pub fn run_plan(batches: &Vec<TestBatch>) -> (plan: Vec<(String, String, &'static str)>)
    ensures
        plan_view(plan@) == plan_of(batches@),
{
    let mut plan: Vec<(String, String, &'static str)> = Vec::new();
    let mut i: usize = 0;
    while i < batches.len()
        invariant
            i <= batches@.len(),
            plan_view(plan@) == plan_of(batches@.take(i as int)),
        decreases batches@.len() - i,
    {
        let b = &batches[i];
        proof {
            assert(batches@.take(i + 1).drop_last() =~= batches@.take(i as int));
        }
        if b.enabled {
            let mut j: usize = 0;
            while j < b.just_tasks.len()
                invariant
                    j <= b.just_tasks@.len(),
                    b.enabled,
                    *b == batches@[i as int],
                    plan_view(plan@) == plan_of(batches@.take(i as int)) + batch_plan(*b).take(j as int),
                decreases b.just_tasks@.len() - j,
            {
                let t = &b.just_tasks[j];
                let cat = task_category(t.as_str());
                let ghost before = plan@;
                plan.push((t.clone(), b.name.clone(), cat));
                proof {
                    assert(plan_view(plan@) =~= plan_view(before).push((t@, b.name@, cat@)));
                    assert(batch_plan(*b).take(j + 1) =~= batch_plan(*b).take(j as int).push((t@, b.name@, cat@)));
                }
                j = j + 1;
            }
            proof {
                assert(batch_plan(*b).take(b.just_tasks@.len() as int) =~= batch_plan(*b));
            }
        } else {
            proof {
                assert(plan_of(batches@.take(i as int)) + batch_plan(*b) =~= plan_of(batches@.take(i as int)));
            }
        }
        i = i + 1;
    }
    proof {
        assert(batches@.take(batches@.len() as int) =~= batches@);
    }
    plan
}

/// A run schedules exactly as many tasks as the selected batches hold
/// together: the number the selection screen shows.
pub proof fn plan_length_is_task_count(batches: Seq<TestBatch>)
    ensures
        plan_of(batches).len() == enabled_tasks_spec(batches),
    decreases batches.len(),
{
    if batches.len() > 0 {
        plan_length_is_task_count(batches.drop_last());
    }
}

/// One of the five languages the `bench` tool compares.
pub open spec fn compared_language(l: Seq<char>) -> bool {
    l == "C"@ || l == "C++"@ || l == "Rust"@ || l == "Python"@ || l == "Java"@
}

/// Runner entry `g` runs the `bench` benchmark `t`: the same `mise` task,
/// language and category.
pub open spec fn in_runner_at(t: (Seq<char>, Seq<char>, Seq<char>), g: (Seq<char>, Seq<char>, Seq<char>, Seq<char>)) -> bool {
    g.3 == t.0 && g.1 == t.1 && g.2 == t.2
}

/// Every benchmark of the `bench` tool is written in one of C, C++, Rust,
/// Python and Java, and is also one of the runner's benchmarks, with the
/// same `mise` task, language and category.
pub proof fn bench_tasks_are_runner_tasks()
    ensures
        forall|i: int| 0 <= i < bench_table().len() ==> compared_language(#[trigger] bench_table()[i].1),
        forall|i: int|
            0 <= i < bench_table().len() ==> exists|j: int|
                0 <= j < runner_table().len() && in_runner_at(#[trigger] bench_table()[i], #[trigger] runner_table()[j]),
{
    let b = bench_table();
    let r = runner_table();
    assert(b.len() == 61);
    assert(r.len() == 132);
    assert forall|i: int| 0 <= i < 61 implies compared_language(#[trigger] b[i].1) && exists|j: int|
        0 <= j < 132 && in_runner_at(b[i], #[trigger] r[j]) by {
        if i == 0 {
            assert(in_runner_at(b[0], r[0]));
        } else if i == 1 {
            assert(in_runner_at(b[1], r[1]));
        } else if i == 2 {
            assert(in_runner_at(b[2], r[2]));
        } else if i == 3 {
            assert(in_runner_at(b[3], r[3]));
        } else if i == 4 {
            assert(in_runner_at(b[4], r[4]));
        } else if i == 5 {
            assert(in_runner_at(b[5], r[13]));
        } else if i == 6 {
            assert(in_runner_at(b[6], r[14]));
        } else if i == 7 {
            assert(in_runner_at(b[7], r[15]));
        } else if i == 8 {
            assert(in_runner_at(b[8], r[16]));
        } else if i == 9 {
            assert(in_runner_at(b[9], r[17]));
        } else if i == 10 {
            assert(in_runner_at(b[10], r[26]));
        } else if i == 11 {
            assert(in_runner_at(b[11], r[27]));
        } else if i == 12 {
            assert(in_runner_at(b[12], r[28]));
        } else if i == 13 {
            assert(in_runner_at(b[13], r[29]));
        } else if i == 14 {
            assert(in_runner_at(b[14], r[30]));
        } else if i == 15 {
            assert(in_runner_at(b[15], r[39]));
        } else if i == 16 {
            assert(in_runner_at(b[16], r[40]));
        } else if i == 17 {
            assert(in_runner_at(b[17], r[41]));
        } else if i == 18 {
            assert(in_runner_at(b[18], r[42]));
        } else if i == 19 {
            assert(in_runner_at(b[19], r[43]));
        } else if i == 20 {
            assert(in_runner_at(b[20], r[52]));
        } else if i == 21 {
            assert(in_runner_at(b[21], r[53]));
        } else if i == 22 {
            assert(in_runner_at(b[22], r[54]));
        } else if i == 23 {
            assert(in_runner_at(b[23], r[55]));
        } else if i == 24 {
            assert(in_runner_at(b[24], r[56]));
        } else if i == 25 {
            assert(in_runner_at(b[25], r[60]));
        } else if i == 26 {
            assert(in_runner_at(b[26], r[61]));
        } else if i == 27 {
            assert(in_runner_at(b[27], r[62]));
        } else if i == 28 {
            assert(in_runner_at(b[28], r[63]));
        } else if i == 29 {
            assert(in_runner_at(b[29], r[64]));
        } else if i == 30 {
            assert(in_runner_at(b[30], r[68]));
        } else if i == 31 {
            assert(in_runner_at(b[31], r[69]));
        } else if i == 32 {
            assert(in_runner_at(b[32], r[70]));
        } else if i == 33 {
            assert(in_runner_at(b[33], r[71]));
        } else if i == 34 {
            assert(in_runner_at(b[34], r[72]));
        } else if i == 35 {
            assert(in_runner_at(b[35], r[76]));
        } else if i == 36 {
            assert(in_runner_at(b[36], r[77]));
        } else if i == 37 {
            assert(in_runner_at(b[37], r[78]));
        } else if i == 38 {
            assert(in_runner_at(b[38], r[79]));
        } else if i == 39 {
            assert(in_runner_at(b[39], r[80]));
        } else if i == 40 {
            assert(in_runner_at(b[40], r[92]));
        } else if i == 41 {
            assert(in_runner_at(b[41], r[93]));
        } else if i == 42 {
            assert(in_runner_at(b[42], r[94]));
        } else if i == 43 {
            assert(in_runner_at(b[43], r[95]));
        } else if i == 44 {
            assert(in_runner_at(b[44], r[96]));
        } else if i == 45 {
            assert(in_runner_at(b[45], r[116]));
        } else if i == 46 {
            assert(in_runner_at(b[46], r[117]));
        } else if i == 47 {
            assert(in_runner_at(b[47], r[118]));
        } else if i == 48 {
            assert(in_runner_at(b[48], r[119]));
        } else if i == 49 {
            assert(in_runner_at(b[49], r[120]));
        } else if i == 50 {
            assert(in_runner_at(b[50], r[84]));
        } else if i == 51 {
            assert(in_runner_at(b[51], r[85]));
        } else if i == 52 {
            assert(in_runner_at(b[52], r[86]));
        } else if i == 53 {
            assert(in_runner_at(b[53], r[87]));
        } else if i == 54 {
            assert(in_runner_at(b[54], r[100]));
        } else if i == 55 {
            assert(in_runner_at(b[55], r[102]));
        } else if i == 56 {
            assert(in_runner_at(b[56], r[103]));
        } else if i == 57 {
            assert(in_runner_at(b[57], r[108]));
        } else if i == 58 {
            assert(in_runner_at(b[58], r[109]));
        } else if i == 59 {
            assert(in_runner_at(b[59], r[110]));
        } else if i == 60 {
            assert(in_runner_at(b[60], r[112]));
        }
    }
}

} // verus!

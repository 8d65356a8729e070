use coogler::candidate::{Function, Location};
use coogler::distance::levenshtein_distance;
use coogler::query::Query;
use coogler::rank::{rank, rank_scored, score, RankedResult};

fn function(name: &str, return_type: &str, parameters: &[(&str, &str)], line: u32) -> Function {
    Function {
        name: name.to_string(),
        location: Location { file_name: "a.c".to_string(), line, column: 1 },
        return_type: return_type.to_string(),
        parameters: parameters
            .iter()
            .map(|(t, n)| (t.to_string(), Some(n.to_string())))
            .collect(),
    }
}

fn add_and_sub() -> Vec<Function> {
    vec![
        function("add", "int", &[("int", "a"), ("int", "b")], 1),
        function("sub", "int", &[("int", "a"), ("int", "b")], 5),
    ]
}

fn by_name(name: &str) -> Query {
    Query { name: Some(name.to_string()), normalised_signature: None }
}

fn names(ranked: &[&Function]) -> Vec<String> {
    ranked.iter().map(|f| f.name.clone()).collect()
}

#[test]
fn rank_add_before_sub() {
    let candidates = add_and_sub();
    let query = by_name("add");
    let scored = rank_scored(&query, &candidates, 20);
    assert_eq!(
        scored,
        vec![
            RankedResult { distance: 0, index: 0 },
            RankedResult { distance: 3, index: 1 },
        ]
    );
    assert_eq!(levenshtein_distance("sub", "add"), 3);
    let ranked = rank(&query, &candidates, 20);
    assert_eq!(ranked.len(), 2);
    assert_eq!(names(&ranked), vec!["add", "sub"]);
    assert_eq!(ranked[0].location.line, 1);
    assert_eq!(ranked[1].location.line, 5);
}

#[test]
fn rank_puts_the_nearest_first_whatever_the_input_order() {
    let mut candidates = add_and_sub();
    candidates.reverse();
    let ranked = rank(&by_name("add"), &candidates, 20);
    assert_eq!(names(&ranked), vec!["add", "sub"]);
}

#[test]
fn rank_empty_query_keeps_input_order() {
    let candidates = vec![
        function("zeta", "int", &[], 1),
        function("alpha", "void", &[("int", "x")], 2),
        function("mid", "char *", &[], 3),
    ];
    let query = Query { name: None, normalised_signature: None };
    let scored = rank_scored(&query, &candidates, 20);
    assert_eq!(
        scored,
        vec![
            RankedResult { distance: 0, index: 0 },
            RankedResult { distance: 0, index: 1 },
            RankedResult { distance: 0, index: 2 },
        ]
    );
    assert_eq!(names(&rank(&query, &candidates, 20)), vec!["zeta", "alpha", "mid"]);
    assert_eq!(names(&rank(&query, &candidates, 2)), vec!["zeta", "alpha"]);
}

#[test]
fn rank_no_candidates_gives_no_result() {
    let candidates: Vec<Function> = Vec::new();
    assert!(rank(&by_name("add"), &candidates, 20).is_empty());
    assert!(rank_scored(&by_name("add"), &candidates, 20).is_empty());
}

#[test]
fn rank_respects_the_limit() {
    let candidates: Vec<Function> =
        (0..30).map(|i| function(&format!("f{}", i), "int", &[], i + 1)).collect();
    let query = by_name("f7");
    for limit in [0usize, 1, 5, 20, 30, 31, 1000] {
        let ranked = rank(&query, &candidates, limit);
        assert_eq!(ranked.len(), limit.min(candidates.len()));
    }
    assert_eq!(rank(&query, &candidates, 1)[0].name, "f7");
}

#[test]
fn rank_ties_keep_input_order() {
    let candidates = vec![
        function("abd", "int", &[], 1),
        function("xyz", "int", &[], 2),
        function("abe", "int", &[], 3),
        function("abc", "int", &[], 4),
        function("abf", "int", &[], 5),
    ];
    let scored = rank_scored(&by_name("abc"), &candidates, 20);
    let order: Vec<usize> = scored.iter().map(|r| r.index).collect();
    let distances: Vec<u128> = scored.iter().map(|r| r.distance).collect();
    assert_eq!(order, vec![3, 0, 2, 4, 1]);
    assert_eq!(distances, vec![0, 1, 1, 1, 3]);
    // A limit cuts the ranking, it does not change it.
    let cut: Vec<usize> =
        rank_scored(&by_name("abc"), &candidates, 3).iter().map(|r| r.index).collect();
    assert_eq!(cut, vec![3, 0, 2]);
}

#[test]
fn rank_is_deterministic() {
    let candidates = vec![
        function("open", "int", &[("const char *", "path"), ("int", "flags")], 1),
        function("close", "int", &[("int", "fd")], 2),
        function("read", "ssize_t", &[("int", "fd"), ("void *", "buf")], 3),
        function("clone", "int", &[("int", "fd")], 4),
    ];
    let query = Query {
        name: Some("clos".to_string()),
        normalised_signature: Some("int ( int )".to_string()),
    };
    let first = rank_scored(&query, &candidates, 3);
    let second = rank_scored(&query, &candidates, 3);
    assert_eq!(first, second);
    assert_eq!(names(&rank(&query, &candidates, 3)), names(&rank(&query, &candidates, 3)));
}

#[test]
fn score_adds_name_and_signature_distances() {
    let candidate = function("add", "int", &[("int", "a"), ("int", "b")], 1);
    let neither = Query { name: None, normalised_signature: None };
    assert_eq!(score(&neither, &candidate), 0);
    assert_eq!(score(&by_name("sub"), &candidate), 3);
    let by_signature =
        Query { name: None, normalised_signature: Some("int ( int )".to_string()) };
    // "int ( int , int )" against "int ( int )": six characters more.
    assert_eq!(score(&by_signature, &candidate), 6);
    let both = Query {
        name: Some("sub".to_string()),
        normalised_signature: Some("int ( int )".to_string()),
    };
    assert_eq!(score(&both, &candidate), 9);
}

#[test]
fn rank_by_signature_sees_through_star_spacing() {
    let candidates = vec![
        function("f", "int", &[("char **", "argv")], 1),
        function("g", "int", &[("char", "c")], 2),
    ];
    let query =
        Query { name: None, normalised_signature: Some("int ( char * * )".to_string()) };
    let scored = rank_scored(&query, &candidates, 20);
    assert_eq!(scored[0], RankedResult { distance: 0, index: 0 });
    assert_eq!(scored[1].index, 1);
    assert_eq!(scored[1].distance, 4);
}

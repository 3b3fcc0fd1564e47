use grdeval::config::{CliError, Command, Config, DEFAULT_CUTOFF};
use grdeval::entry::{score_key, LineError, QrelEntry, TrecEntry};
use grdeval::evaluate::{evaluate, evaluate_ordered, EvalError};
use grdeval::ident::compare_ids;
use grdeval::metric::{gain_terms, has_gain, relevance_scale};
use grdeval::number::{parse_i32, parse_usize};
use grdeval::ranking::{entry_precedes, order};
use grdeval::store::{JudgmentStore, StoreError};

fn qrel(line: &str) -> QrelEntry {
    QrelEntry::new(line.split(' ').collect())
}

fn trec(line: &str) -> TrecEntry {
    let fields: Vec<&str> = line.split(' ').collect();
    let score: f64 = fields[4].parse().unwrap();
    TrecEntry::new(fields, score_key(score.to_bits()))
}

fn store(lines: &[&str]) -> JudgmentStore {
    JudgmentStore::load(lines.iter().map(|l| qrel(l)).collect()).unwrap()
}

fn dcg(k: usize, gain: &Vec<u32>) -> f64 {
    let mut score = 0.;
    for (i, t) in gain_terms(k, gain).iter().enumerate() {
        score += *t as f64 / (i as f64 + 2.).log(2.0);
    }
    score
}

fn err(k: usize, gain: &Vec<u32>, max_judgment: u32) -> f64 {
    let scale = relevance_scale(max_judgment) as f64;
    let mut score = 0.;
    let mut decay = 1.0;
    for (i, t) in gain_terms(k, gain).iter().enumerate() {
        let r = *t as f64 / scale;
        score += r * decay / (i as f64 + 1.);
        decay *= 1. - r;
    }
    score
}

fn ndcg(k: usize, gains: &Vec<u32>, ideal: &Vec<u32>) -> f64 {
    if has_gain(k, ideal) {
        dcg(k, gains) / dcg(k, ideal)
    } else {
        0.
    }
}

#[test]
fn numbers_parse_like_rust() {
    assert_eq!(parse_i32(b"42"), Some(42));
    assert_eq!(parse_i32(b"-1"), Some(-1));
    assert_eq!(parse_i32(b"+7"), Some(7));
    assert_eq!(parse_i32(b"2147483647"), Some(i32::MAX));
    assert_eq!(parse_i32(b"-2147483648"), Some(i32::MIN));
    assert_eq!(parse_i32(b"2147483648"), None);
    assert_eq!(parse_i32(b""), None);
    assert_eq!(parse_i32(b"-"), None);
    assert_eq!(parse_i32(b"1x"), None);
    assert_eq!(parse_usize(b"20"), Some(20));
    assert_eq!(parse_usize(b"-0"), None);
    assert_eq!(parse_usize(b"18446744073709551616"), None);
    assert_eq!(parse_usize(b"18446744073709551615"), Some(usize::MAX));
}

#[test]
fn judgment_lines() {
    let e = qrel("T1 0 d1 3");
    assert_eq!(e.topic, b"T1".to_vec());
    assert_eq!(e.docid, b"d1".to_vec());
    assert_eq!(e.relevance, 3);
    assert!(matches!(QrelEntry::parse(vec!["T1", "0", "d1"]), Err(LineError::FieldCount)));
    assert!(matches!(QrelEntry::parse(vec!["T1", "0", "d1", "high"]), Err(LineError::NotANumber)));
    assert_eq!(QrelEntry::parse(vec!["T1", "0", "d1", "-2"]).unwrap().relevance, -2);
}

#[test]
fn run_lines() {
    let e = trec("T1 Q0 d1 1 2.5 R");
    assert_eq!(e.topic, b"T1".to_vec());
    assert_eq!(e.docid, b"d1".to_vec());
    assert_eq!(e.runid, b"R".to_vec());
    assert_eq!(e.score, score_key(2.5f64.to_bits()));
}

#[test]
fn score_keys_keep_the_order_of_scores() {
    let scores: [f64; 9] = [-1e300, -2.5, -1.0, -0.0, 0.0, 1e-300, 1.0, 2.5, 1e300];
    for w in scores.windows(2) {
        assert!(score_key(w[0].to_bits()) <= score_key(w[1].to_bits()));
    }
    assert_eq!(score_key((-0.0f64).to_bits()), score_key(0.0f64.to_bits()));
    assert!(score_key((-1.0f64).to_bits()) < score_key(0.0f64.to_bits()));
}

#[test]
fn identifiers_compare_bytewise() {
    assert_eq!(compare_ids(&b"a".to_vec(), &b"b".to_vec()), -1);
    assert_eq!(compare_ids(&b"ab".to_vec(), &b"a".to_vec()), 1);
    assert_eq!(compare_ids(&b"d10".to_vec(), &b"d10".to_vec()), 0);
    assert_eq!(compare_ids(&b"d10".to_vec(), &b"d9".to_vec()), -1);
}

#[test]
fn store_grades_and_ideal_gains() {
    let s = store(&["T1 0 d1 1", "T1 0 d2 3", "T1 0 d3 -1", "T1 0 d4 0", "T2 0 d1 2", "T1 0 d5 3"]);
    assert_eq!(s.max_judgment, 3);
    assert_eq!(s.lookup(&b"T1".to_vec(), &b"d2".to_vec()), 3);
    assert_eq!(s.lookup(&b"T1".to_vec(), &b"d3".to_vec()), 0);
    assert_eq!(s.lookup(&b"T1".to_vec(), &b"nope".to_vec()), 0);
    assert_eq!(s.lookup(&b"T2".to_vec(), &b"d1".to_vec()), 2);
    assert_eq!(s.ideal_gains(&b"T1".to_vec()), vec![3, 3, 1, 0]);
    assert_eq!(s.ideal_gains(&b"T2".to_vec()), vec![2]);
    assert_eq!(s.ideal_gains(&b"T3".to_vec()), Vec::<u32>::new());
}

#[test]
fn negative_grades_only_give_zero_max() {
    let s = store(&["T1 0 d1 -1"]);
    assert_eq!(s.max_judgment, 0);
}

#[test]
fn grade_too_large_is_refused() {
    let r = JudgmentStore::load(vec![qrel("T1 0 d1 31")]);
    assert!(matches!(r, Err(StoreError::GradeTooLarge)));
    assert!(JudgmentStore::load(vec![qrel("T1 0 d1 30")]).is_ok());
}

#[test]
fn equal_scores_order_by_descending_document() {
    let run = vec![
        trec("T2 Q0 a 1 1.0 R"),
        trec("T1 Q0 b 1 1.0 R"),
        trec("T1 Q0 c 1 1.0 R"),
        trec("T1 Q0 a 1 2.0 R"),
        trec("T1 Q0 d 1 0.5 R"),
    ];
    let ordered = order(run);
    let keys: Vec<(Vec<u8>, Vec<u8>)> = ordered.iter().map(|e| (e.topic.clone(), e.docid.clone())).collect();
    assert_eq!(
        keys,
        vec![
            (b"T1".to_vec(), b"a".to_vec()),
            (b"T1".to_vec(), b"c".to_vec()),
            (b"T1".to_vec(), b"b".to_vec()),
            (b"T1".to_vec(), b"d".to_vec()),
            (b"T2".to_vec(), b"a".to_vec()),
        ]
    );
    assert!(entry_precedes(&ordered[1], &ordered[2]));
    assert!(!entry_precedes(&ordered[2], &ordered[1]));
}

#[test]
fn topics_order_ascending() {
    let ordered = order(vec![trec("b 0 x 1 9 R"), trec("a 0 x 1 1 R"), trec("ab 0 x 1 5 R")]);
    let topics: Vec<Vec<u8>> = ordered.iter().map(|e| e.topic.clone()).collect();
    assert_eq!(topics, vec![b"a".to_vec(), b"ab".to_vec(), b"b".to_vec()]);
}

#[test]
fn ideal_order_scores_one() {
    let s = store(&["T1 0 d1 3", "T1 0 d2 2", "T1 0 d3 1"]);
    let run = vec![trec("T1 Q0 d1 1 3.0 R"), trec("T1 Q0 d2 2 2.0 R"), trec("T1 Q0 d3 3 1.0 R")];
    let ev = evaluate(&s, run).unwrap();
    assert_eq!(ev.runid, b"R".to_vec());
    assert_eq!(ev.topics.len(), 1);
    let t = &ev.topics[0];
    assert_eq!(t.topic, b"T1".to_vec());
    assert_eq!(t.gains, vec![3, 2, 1]);
    assert_eq!(t.ideal, vec![3, 2, 1]);
    assert_eq!(format!("{:.5}", ndcg(3, &t.gains, &t.ideal)), "1.00000");
    let e = err(3, &t.gains, ev.max_judgment);
    assert!((e - 0.9016927083333334).abs() <= f64::EPSILON);
    assert_eq!(format!("{:.5}", e), "0.90169");
}

#[test]
fn unjudged_topic_scores_zero() {
    let s = store(&["T1 0 d1 3"]);
    let run = vec![trec("T1 Q0 d1 1 3.0 R"), trec("T9 Q0 d1 1 3.0 R")];
    let ev = evaluate(&s, run).unwrap();
    assert_eq!(ev.topics.len(), 2);
    let t = &ev.topics[1];
    assert_eq!(t.topic, b"T9".to_vec());
    assert_eq!(t.gains, vec![0]);
    assert!(t.ideal.is_empty());
    assert_eq!(format!("{:.5}", ndcg(20, &t.gains, &t.ideal)), "0.00000");
}

#[test]
fn no_ideal_gain_means_zero_ndcg() {
    let s = store(&["T1 0 d1 0", "T1 0 d2 -1"]);
    let ev = evaluate(&s, vec![trec("T1 Q0 d9 1 3.0 R")]).unwrap();
    let t = &ev.topics[0];
    assert!(!has_gain(20, &t.ideal));
    assert_eq!(ndcg(20, &t.gains, &t.ideal), 0.0);
}

#[test]
fn empty_run_is_an_error() {
    let s = store(&["T1 0 d1 3"]);
    assert!(matches!(evaluate(&s, vec![]), Err(EvalError::EmptyRun)));
    assert!(matches!(evaluate_ordered(&s, &vec![]), Err(EvalError::EmptyRun)));
}

#[test]
fn topics_split_where_topic_changes() {
    let s = store(&["A 0 x 2", "B 0 y 1"]);
    let run = vec![trec("A 0 x 1 2 R"), trec("A 0 z 1 1 R"), trec("B 0 y 1 1 R")];
    let ev = evaluate_ordered(&s, &run).unwrap();
    assert_eq!(ev.topics.len(), 2);
    assert_eq!(ev.topics[0].gains, vec![2, 0]);
    assert_eq!(ev.topics[1].gains, vec![1]);
    assert_eq!(ev.topics[1].ideal, vec![1]);
}

#[test]
fn command_line_choices() {
    let paths = || vec!["q".to_string(), "r".to_string()];
    assert!(matches!(Config::from_matches(true, vec![], None), Ok(Command::Help)));
    assert!(matches!(Config::from_matches(false, vec!["q".to_string()], None), Err(CliError::MissingPaths)));
    assert!(matches!(Config::from_matches(false, paths(), Some("x".to_string())), Err(CliError::BadCutoff)));
    match Config::from_matches(false, paths(), None) {
        Ok(Command::Evaluate(c)) => {
            assert_eq!(c.qrelfile, "q");
            assert_eq!(c.runfile, "r");
            assert_eq!(c.cutoff, DEFAULT_CUTOFF);
        },
        _ => panic!("expected an evaluation"),
    }
    match Config::from_matches(false, paths(), Some("5".to_string())) {
        Ok(Command::Evaluate(c)) => assert_eq!(c.cutoff, 5),
        _ => panic!("expected an evaluation"),
    }
}

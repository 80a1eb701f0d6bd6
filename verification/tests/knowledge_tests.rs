use lib::knowledge::{add_kept, extract, is_kept, piece_bounds, ConceptSet, CorpusKnowledge};

fn corpus() -> CorpusKnowledge {
    CorpusKnowledge::from_texts(vec![
        "recursive self improvement geometry surface intelligence".to_string(),
        "substrate hardware software coupling efficiency multiplicative".to_string(),
        "criticality failure modes risk priority number wireheading".to_string(),
    ])
}

#[test]
fn concepts_grow_with_documents() {
    let mut k = corpus();
    let c0 = k.concept_count();
    k.ingest();
    let c1 = k.concept_count();
    k.ingest();
    let c2 = k.concept_count();
    k.ingest();
    let c3 = k.concept_count();
    assert_eq!((c0, c1, c2, c3), (0, 6, 12, 19));
    // past the end of the corpus nothing changes
    k.ingest();
    assert_eq!(k.concept_count(), c3);
    assert_eq!(k.documents_read(), 3);
}

#[test]
fn concepts_are_lowercased_long_and_lettered() {
    let mut s = ConceptSet::new();
    extract("Risk RISK, risk; abc 1234 x1y2 été-ÉTÉ", &mut s);
    assert!(s.contains("risk"));
    assert!(!s.contains("Risk"));
    assert!(!s.contains("abc"));
    assert!(!s.contains("1234"));
    assert!(s.contains("x1y2"));
    assert!(s.contains("été"));
    assert_eq!(s.len(), 3);
}

#[test]
fn concept_sets_hold_each_once() {
    let mut s = ConceptSet::new();
    s.insert("alpha".to_string());
    s.insert("alpha".to_string());
    s.insert("beta".to_string());
    assert_eq!(s.len(), 2);
    let mut t = ConceptSet::new();
    extract("", &mut t);
    assert_eq!(t.len(), 0);
}

#[test]
fn pieces_cut_at_non_alphanumerics() {
    // "ab c" with its letter-or-digit flags
    assert_eq!(piece_bounds(&vec![true, true, false, true]), vec![(0, 2), (3, 4)]);
    assert_eq!(piece_bounds(&vec![false, false]), vec![(0, 0), (1, 1), (2, 2)]);
    assert_eq!(piece_bounds(&vec![]), vec![(0, 0)]);
}

#[test]
fn kept_pieces_from_given_classifications() {
    let words = ["recursive", "self", "improvement", "geometry", "surface", "intelligence", "abc", "1234"];
    let lowered: Vec<Vec<char>> = words.iter().map(|w| w.chars().collect()).collect();
    let letters: Vec<Vec<bool>> = words.iter().map(|w| w.chars().map(|c| c.is_alphabetic()).collect()).collect();
    let mut s = ConceptSet::new();
    add_kept(&lowered, &letters, &mut s);
    assert_eq!(s.len(), 6);
    assert!(!is_kept(&"abc".chars().collect(), &vec![true, true, true]));
    assert!(is_kept(&"été".chars().collect(), &vec![true, true, true]));
    assert!(!is_kept(&"1234".chars().collect(), &vec![false, false, false, false]));
}

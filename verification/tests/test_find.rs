use sora::{BorrowedSourceMap, Mapping, Mappings, Position, SourceMap};

fn table() -> Mappings {
    Mappings::new(vec![
        Mapping::new(1, 0),
        Mapping::new(1, 10),
        Mapping::new(1, 40),
        Mapping::new(3, 5),
        Mapping::new(7, 0),
    ])
}

#[test]
fn test_find_mapping_closest_preceding() {
    let mappings = table();
    // a position before every mapping resolves to nothing
    assert!(mappings.find_mapping(Position::new(0, 100)).is_none());
    // an exact hit resolves to that mapping
    assert_eq!(
        mappings.find_mapping(Position::new(1, 10)).unwrap().generated(),
        Position::new(1, 10)
    );
    // otherwise the closest preceding mapping wins
    assert_eq!(
        mappings.find_mapping(Position::new(1, 39)).unwrap().generated(),
        Position::new(1, 10)
    );
    assert_eq!(
        mappings.find_mapping(Position::new(2, 0)).unwrap().generated(),
        Position::new(1, 40)
    );
    assert_eq!(
        mappings.find_mapping(Position::new(100, 0)).unwrap().generated(),
        Position::new(7, 0)
    );
}

#[test]
fn test_find_mapping_monotonic() {
    // growing query positions resolve to non-decreasing generated positions
    let mappings = table();
    let mut last: Option<Position> = None;
    for line in 0..10u32 {
        for column in 0..50u32 {
            if let Some(m) = mappings.find_mapping(Position::new(line, column)) {
                let g = m.generated();
                if let Some(p) = last {
                    assert!(p.line < g.line || (p.line == g.line && p.column <= g.column));
                }
                last = Some(g);
            } else {
                assert!(last.is_none());
            }
        }
    }
}

#[test]
fn test_finder_matches_stateless_lookup() {
    // the adaptive finder returns what the stateless lookup returns, for
    // the same sequence of positions: forward and backward, near and far
    let mappings = table();
    let mut finder = mappings.finder();
    let queries = [
        (0u32, 0u32),
        (1, 0),
        (1, 5),
        (1, 11),
        (1, 9),
        (1, 40),
        (1, 41),
        (3, 4),
        (3, 5),
        (1, 20),
        (7, 0),
        (0, 30),
        (100, 100),
    ];
    for &(line, column) in queries.iter() {
        let pos = Position::new(line, column);
        let by_finder = finder.find_mapping(pos);
        let stateless = mappings.find_mapping(pos);
        assert_eq!(by_finder, stateless);
    }
}

#[test]
fn test_finder_sequential_scan() {
    // sequential lookups on one line with column deltas under 32, against a
    // larger minified-style mapping table: every result matches an
    // independent whole-table lookup
    let mut raw = Vec::new();
    for column in 0..200u32 {
        raw.push(Mapping::new(0, column * 3));
    }
    let mappings = Mappings::new(raw);
    let mut finder = mappings.finder();
    for column in 0..600u32 {
        let pos = Position::new(0, column);
        let by_finder = finder.find_mapping(pos);
        let stateless = mappings.find_mapping(pos);
        assert_eq!(by_finder, stateless);
        assert_eq!(
            by_finder.unwrap().generated(),
            Position::new(0, column - column % 3)
        );
    }
}

#[test]
fn test_finder_repeated_position() {
    let mappings = table();
    let mut finder = mappings.finder();
    let pos = Position::new(1, 12);
    let first = finder.find_mapping(pos);
    let second = finder.find_mapping(pos);
    assert_eq!(first, second);
}

#[test]
fn test_find_mapping_on_source_map() {
    let mut buf =
        br#"{"version":3,"sources":["a.js"],"mappings":"AACE,IACE"}"#.to_vec();
    let sm = BorrowedSourceMap::from_slice(&mut buf).unwrap();
    let m = sm.find_mapping(Position::new(0, 3)).unwrap();
    assert_eq!(m.generated(), Position::new(0, 0));
    let m = sm.find_mapping(Position::new(0, 4)).unwrap();
    assert_eq!(m.generated(), Position::new(0, 4));
    let finder = sm.finder();
    drop(finder);
    let owned: SourceMap = sm.into_owned();
    assert_eq!(
        owned.find_mapping(Position::new(9, 9)).unwrap().generated(),
        Position::new(0, 4)
    );
}

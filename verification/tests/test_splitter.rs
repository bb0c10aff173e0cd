use sora::MappingSplitter;

#[test]
fn test_splitter() {
    let text =
      ";;yZCTnK,IAAO5F,gBAAkB,YACzB,IAAOC,YAAcC,UACrB;IAAOC,oBAAsB,YAE7B,EAAQ,QAER,EAAQ;;cAAe";

    let mut splitter = MappingSplitter::new(text);
    let mut result = String::new();
    while let Some((seg, new_line)) = splitter.next() {
        let s = String::from_utf8(seg).unwrap();
        result.push_str(&format!("[{}:{}]", s, new_line));
    }
    assert_eq!(
        result,
        "[:true][:true][yZCTnK:false][IAAO5F:false][gBAAkB:false][YACzB:false][IAAOC:false][YAAcC:false][UACrB:true][IAAOC:false][oBAAsB:false][YAE7B:false][EAAQ:false][QAER:false][EAAQ:true][:true][cAAe:false]"
    );
}

#[test]
fn test_splitter_empty_string() {
    let mut splitter = MappingSplitter::new("");
    assert_eq!(splitter.next(), Some((Vec::new(), false)));
    assert_eq!(splitter.next(), None);
}

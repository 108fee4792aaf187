use ief_lsp::types::{from_uri, null_range, to_uri, Position, Range, TextEdit};
use ief_lsp::workspace::{new_workspace, IEF_Policy, IEF_Workspace};

fn doc(location: &str, text: &str) -> (Vec<u8>, Vec<u8>) {
    (location.as_bytes().to_vec(), text.as_bytes().to_vec())
}

fn policy_xml(id: &str) -> String {
    format!("<TrustFrameworkPolicy PolicyId=\"{}\">\n</TrustFrameworkPolicy>\n", id)
}

fn policy_xml_with_base(id: &str, base: &str) -> String {
    format!(
        "<TrustFrameworkPolicy PolicyId=\"{}\">\n  <BasePolicy>\n    <PolicyId>{}</PolicyId>\n  </BasePolicy>\n</TrustFrameworkPolicy>\n",
        id, base
    )
}

fn workspace(docs: Vec<(Vec<u8>, Vec<u8>)>) -> IEF_Workspace {
    new_workspace("/ws".as_bytes().to_vec(), &docs)
}

fn diags_for<'a>(
    all: &'a [(Vec<u8>, Vec<ief_lsp::types::Diagnostic>)],
    location: &str,
) -> &'a Vec<ief_lsp::types::Diagnostic> {
    let uri = to_uri(&location.as_bytes().to_vec());
    &all.iter().find(|(u, _)| *u == uri).unwrap().1
}

#[test]
fn test_facts_extracted_on_create() {
    let p = IEF_Policy::new(policy_xml_with_base("A", "Base").into_bytes()).unwrap();
    assert_eq!(p.id.as_slice(), "A".as_bytes());
    let base = p.base_id.as_ref().unwrap();
    assert_eq!(base.txt.as_slice(), "Base".as_bytes());
    // The reference's recorded range spans its content node: "Base" on
    // line 2, after the 14 bytes of "    <PolicyId>".
    assert_eq!(
        base.range,
        Range {
            start: Position { line: 2, character: 14 },
            end: Position { line: 2, character: 18 },
        }
    );
    assert_ne!(base.range, null_range());
}

#[test]
fn test_reference_resolution() {
    let ws = workspace(vec![
        doc("/ws/a.xml", &policy_xml("X")),
        doc("/ws/b.xml", &policy_xml_with_base("B", "X")),
    ]);
    let all = ws.get_diagnostics();
    assert_eq!(all.len(), 2);
    assert!(diags_for(&all, "/ws/a.xml").is_empty());
    assert!(diags_for(&all, "/ws/b.xml").is_empty());
}

#[test]
fn test_dangling_reference() {
    let ws = workspace(vec![
        doc("/ws/a.xml", &policy_xml("X")),
        doc("/ws/b.xml", &policy_xml_with_base("B", "Y")),
    ]);
    let all = ws.get_diagnostics();
    assert!(diags_for(&all, "/ws/a.xml").is_empty());
    let b_diags = diags_for(&all, "/ws/b.xml");
    assert_eq!(b_diags.len(), 1);
    let d = &b_diags[0];
    assert_eq!(
        d.message.as_slice(),
        "referenced policy 'Y' does not exist.".as_bytes()
    );
    // Placed at the reference's recorded range, which spans the "Y"
    // content node.
    let expected = ws
        .find_policy_by_id(&"B".as_bytes().to_vec())
        .unwrap()
        .base_id
        .as_ref()
        .unwrap()
        .range;
    assert_eq!(d.range, expected);
    assert_eq!(
        d.range,
        Range {
            start: Position { line: 2, character: 14 },
            end: Position { line: 2, character: 15 },
        }
    );
}

#[test]
fn test_missing_identifier() {
    let ws = workspace(vec![doc("/ws/a.xml", "<Foo Bar=\"1\">\n</Foo>\n")]);
    let all = ws.get_diagnostics();
    let diags = diags_for(&all, "/ws/a.xml");
    assert_eq!(diags.len(), 1);
    assert_eq!(diags[0].message.as_slice(), "Policy requires a Policy ID".as_bytes());
    assert_eq!(diags[0].range, null_range());
}

#[test]
fn test_identifier_comparison_is_case_sensitive() {
    let ws = workspace(vec![
        doc("/ws/a.xml", &policy_xml("Upper")),
        doc("/ws/b.xml", &policy_xml_with_base("B", "upper")),
    ]);
    assert!(ws.find_policy_by_id(&"Upper".as_bytes().to_vec()).is_some());
    assert!(ws.find_policy_by_id(&"upper".as_bytes().to_vec()).is_none());
    let all = ws.get_diagnostics();
    assert_eq!(diags_for(&all, "/ws/b.xml").len(), 1);
}

#[test]
fn test_noop_edit_leaves_document_unchanged() {
    let mut p = IEF_Policy::new(policy_xml_with_base("A", "Base").into_bytes()).unwrap();
    let before_text = p.text.text().clone();
    let before_id = p.id.clone();
    let before_base = p.base_id.as_ref().unwrap().txt.clone();
    let e = TextEdit {
        range: Range {
            start: Position { line: 1, character: 2 },
            end: Position { line: 1, character: 2 },
        },
        new_text: Vec::new(),
    };
    assert!(p.handle_edit(&e).is_ok());
    assert_eq!(p.text.text().as_slice(), before_text.as_slice());
    assert_eq!(p.id, before_id);
    assert_eq!(p.base_id.as_ref().unwrap().txt, before_base);
}

#[test]
fn test_edit_updates_facts() {
    // /ws/b.xml refers to "X"; editing its reference content to "XY"
    // re-extracts the facts and the dangling diagnostic follows suit.
    let mut ws = workspace(vec![
        doc("/ws/a.xml", &policy_xml("X")),
        doc("/ws/b.xml", &policy_xml_with_base("B", "X")),
    ]);
    assert!(diags_for(&ws.get_diagnostics(), "/ws/b.xml").is_empty());
    // The reference's content "X" sits on line 2 after "    <PolicyId>".
    let e = TextEdit {
        range: Range {
            start: Position { line: 2, character: 15 },
            end: Position { line: 2, character: 15 },
        },
        new_text: "Y".as_bytes().to_vec(),
    };
    let location = "/ws/b.xml".as_bytes().to_vec();
    assert!(ws.update_document(&location, &vec![e]).is_ok());
    let b = ws.find_policy_by_id(&"B".as_bytes().to_vec()).unwrap();
    assert_eq!(b.base_id.as_ref().unwrap().txt.as_slice(), "XY".as_bytes());
    let all = ws.get_diagnostics();
    let b_diags = diags_for(&all, "/ws/b.xml");
    assert_eq!(b_diags.len(), 1);
    assert_eq!(
        b_diags[0].message.as_slice(),
        "referenced policy 'XY' does not exist.".as_bytes()
    );
}

#[test]
fn test_update_unknown_document() {
    let mut ws = workspace(vec![doc("/ws/a.xml", &policy_xml("X"))]);
    let location = "/ws/missing.xml".as_bytes().to_vec();
    let r = ws.update_document(&location, &Vec::new());
    assert!(r.is_err());
    assert_eq!(r.err().unwrap().msg.as_slice(), "Document not found".as_bytes());
}

#[test]
fn test_update_malformed_position() {
    let mut ws = workspace(vec![doc("/ws/a.xml", &policy_xml("X"))]);
    let e = TextEdit {
        range: Range {
            start: Position { line: 9, character: 0 },
            end: Position { line: 9, character: 0 },
        },
        new_text: "x".as_bytes().to_vec(),
    };
    let location = "/ws/a.xml".as_bytes().to_vec();
    let r = ws.update_document(&location, &vec![e]);
    assert!(r.is_err());
    assert_eq!(r.err().unwrap().msg.as_slice(), "Edit position is malformed".as_bytes());
}

#[test]
fn test_unparseable_document_skipped() {
    // tree-sitter's XML grammar parses almost anything with error nodes,
    // so a workspace build never loses the well-formed documents.
    let ws = workspace(vec![
        doc("/ws/a.xml", &policy_xml("X")),
        doc("/ws/a.xml", &policy_xml("ShadowedDuplicate")),
    ]);
    // The first entry wins a duplicated location.
    assert!(ws.find_policy_by_id(&"X".as_bytes().to_vec()).is_some());
    assert!(ws
        .find_policy_by_id(&"ShadowedDuplicate".as_bytes().to_vec())
        .is_none());
}

#[test]
fn test_uri_round_trip() {
    let path = "/ws/a.xml".as_bytes().to_vec();
    let uri = to_uri(&path);
    assert_eq!(uri.as_slice(), "file:///ws/a.xml".as_bytes());
    assert_eq!(from_uri(&uri).as_slice(), path.as_slice());
    assert_eq!(from_uri(&path).as_slice(), path.as_slice());
}

#[test]
fn test_compute_ids_refreshes_facts() {
    let mut p = IEF_Policy::new(policy_xml("A").into_bytes()).unwrap();
    assert!(p.compute_ids());
    assert_eq!(p.id.as_slice(), "A".as_bytes());
    assert!(p.base_id.is_none());
}

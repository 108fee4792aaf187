use ief_lsp::queries::{
    base_policy_query, definition_query, get_tag_name, id_query, parse_tag, remove_quotes,
};
use ief_lsp::types::Position;

fn get_test_str() -> (tree_sitter::Tree, Vec<u8>) {
    let s = String::from("
            <?xml version=\"1.0\" encoding=\"UTF-8\" standalone=\"yes\"?>
            <TrustFrameworkPolicy
              xmlns:xsi=\"http://www.w3.org/2001/XMLSchema-instance\"
              xmlns:xsd=\"http://www.w3.org/2001/XMLSchema\"
              xmlns=\"http://schemas.microsoft.com/online/cpim/schemas/2013/06\"
              PolicySchemaVersion=\"0.3.0.0\"
              TenantId=\"yourtenant.onmicrosoft.com\"
              PolicyId=\"B2C_1A_ProfileEdit\"
              PublicPolicyUri=\"http://yourtenant.onmicrosoft.com/B2C_1A_ProfileEdit\">
              <BasePolicy>
                <TenantId>yourtenant.onmicrosoft.com</TenantId>
                <PolicyId>B2C_1A_TrustFrameworkExtensions</PolicyId>
              </BasePolicy>

              <RelyingParty>
                <DefaultUserJourney ReferenceId=\"ProfileEdit\"/>
                <TechnicalProfile Id=\"PolicyProfile\">
                  <DisplayName>PolicyProfile</DisplayName>
                  <Protocol Name=\"OpenIdConnect\" />
                  <OutputClaims>
                    <OutputClaim ClaimTypeReferenceId=\"objectId\" PartnerClaimType=\"sub\"/>
                    <OutputClaim ClaimTypeReferenceId=\"tenantId\" AlwaysUseDefaultValue=\"true\" DefaultValue=\"{Policy:TenantObjectId}\" />
                  </OutputClaims>
                  <SubjectNamingInfo ClaimType=\"sub\" />
                </TechnicalProfile>
              </RelyingParty>
            </TrustFrameworkPolicy>
        ");
    let mut parser = tree_sitter::Parser::new();
    parser
        .set_language(&tree_sitter_xml::LANGUAGE_XML.into())
        .unwrap();
    let tree = parser.parse(s.as_str(), None).unwrap();
    (tree, s.into_bytes())
}

#[test]
fn test_id_query() {
    let (t, s) = get_test_str();
    let query = id_query().unwrap();
    let res = query.first(&t, &s);
    assert!(res.is_some());
    let id = res.unwrap();
    assert_eq!(id.txt.as_slice(), "B2C_1A_ProfileEdit".as_bytes());
}

#[test]
fn test_base_id_query() {
    let (t, s) = get_test_str();
    let query = base_policy_query().unwrap();
    let res = query.first(&t, &s);
    assert!(res.is_some());
    let id = res.unwrap();
    assert_eq!(id.txt.as_slice(), "B2C_1A_TrustFrameworkExtensions".as_bytes());
}

#[test]
fn test_def_query() {
    let (t, s) = get_test_str();
    let query = definition_query().unwrap();
    let res = query.all(&t, &s);
    assert_eq!(res.len(), 1);
    let tp_def = res.first().unwrap();
    assert_eq!(tp_def.id.as_slice(), "PolicyProfile".as_bytes());
    assert_eq!(tp_def.tag_name.as_slice(), "TechnicalProfile".as_bytes());
}

#[test]
fn test_tag_info() {
    let (t, s) = get_test_str();
    let pos = Position { line: 16, character: 50 };
    let res = get_tag_name(&t, pos);
    assert!(res.is_some());
    let n = res.unwrap();
    let mut node = t
        .root_node()
        .descendant_for_byte_range(n.start_byte, n.end_byte)
        .unwrap();
    while node.grammar_name() != "element" {
        node = node.parent().unwrap();
    }
    assert_eq!("element", node.grammar_name());
    assert_eq!((node.start_byte(), node.end_byte()), (n.start_byte, n.end_byte));
    assert_eq!(
        "<DefaultUserJourney ReferenceId=\"ProfileEdit\"/>".as_bytes(),
        &s[n.start_byte..n.end_byte]
    );
}

#[test]
fn test_tag_query() {
    let (t, s) = get_test_str();
    let pos = Position { line: 17, character: 50 };
    let res = get_tag_name(&t, pos);
    let n = res.unwrap();
    let tag = parse_tag(&t, &s, &n);
    assert!(tag.is_some());
    let tag = tag.unwrap();
    assert_eq!(tag.name.as_slice(), "TechnicalProfile".as_bytes());
    assert_eq!(
        tag.get(&"Id".as_bytes().to_vec()),
        Some(&"PolicyProfile".as_bytes().to_vec())
    );
}

#[test]
fn test_remove_quotes() {
    let v = "\"Policy\"Id\"".as_bytes().to_vec();
    assert_eq!(remove_quotes(&v).as_slice(), "PolicyId".as_bytes());
    let empty: Vec<u8> = Vec::new();
    assert_eq!(remove_quotes(&empty).as_slice(), "".as_bytes());
}

#[test]
fn test_attr_lookup_last_wins() {
    let (t, s) = get_test_str();
    let pos = Position { line: 17, character: 50 };
    let n = get_tag_name(&t, pos).unwrap();
    let tag = parse_tag(&t, &s, &n).unwrap();
    // A name no attribute carries resolves to nothing.
    assert_eq!(tag.get(&"NoSuchAttribute".as_bytes().to_vec()), None);
}

use xserde::XmlVersion;

#[test]
fn version_text() {
    assert_eq!(XmlVersion::v1_0.as_str(), "1.0");
    assert_eq!(XmlVersion::v1_1.as_str(), "1.1");
}

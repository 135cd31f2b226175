use panos_rust_sdk::api::responses::{
    decode_keygen_response, decode_response, keygen_response_from_request, keygen_response_of,
    ReturnsText, TestResponse,
};
use panos_rust_sdk::api::{keygen_reply, session_key, ApiError};

#[test]
fn test_keygen_response_from_request() {
    let test_response = TestResponse {
        text: "<response status = 'success'><result><key>abcd1234</key></result></response>".to_string()
    };

    match keygen_response_from_request(test_response) {
        Ok(response) => {
            assert_eq!(response.result.key, "abcd1234");
            assert_eq!(response.response.status, "success");
        }
        Err(e) => {
            panic!("{:?}", e);
        }
    }
}

#[test]
fn keygen_example_decodes() {
    let r = decode_keygen_response(
        "<response status='success'><result><key>abcd1234</key></result></response>",
    )
    .unwrap();
    assert_eq!(r.response.status, "success");
    assert_eq!(r.result.key, "abcd1234");
}

#[test]
fn key_text_is_kept_exactly() {
    for key in ["k", " spaced key ", "LUFRPT1=a/b+c==", "ключ"] {
        let doc = format!(
            "<response status=\"success\"><result><key>{}</key></result></response>",
            key
        );
        let r = decode_keygen_response(&doc).unwrap();
        assert_eq!(r.result.key, key);
    }
}

#[test]
fn key_references_are_unescaped() {
    let r = decode_keygen_response(
        "<response status='success'><result><key>a&amp;b&#65;&lt;</key></result></response>",
    )
    .unwrap();
    assert_eq!(r.result.key, "a&bA<");
}

#[test]
fn status_references_are_unescaped() {
    let r = decode_response("<response status='succ&#101;ss'/>").unwrap();
    assert_eq!(r.status, "success");
}

#[test]
fn declaration_whitespace_and_other_elements_are_accepted() {
    let doc = "<?xml version=\"1.0\"?>\n<response status='success' code='19'>\n  <msg>hi</msg>\n  <result>\n    <other/>\n    <key>xyz</key>\n  </result>\n</response>\n";
    let r = decode_keygen_response(doc).unwrap();
    assert_eq!(r.response.status, "success");
    assert_eq!(r.result.key, "xyz");
}

#[test]
fn empty_key_beside_success_is_a_protocol_error() {
    for doc in [
        "<response status='success'><result><key/></result></response>",
        "<response status='success'><result><key></key></result></response>",
        "<response status='success'><result></result></response>",
    ] {
        assert_eq!(decode_keygen_response(doc).map(|r| r.result.key), Err(ApiError::Protocol));
        let text = TestResponse { text: doc.to_string() };
        assert_eq!(keygen_response_from_request(text).map(|r| r.result.key), Err(ApiError::Protocol));
    }
}

#[test]
fn keygen_response_of_checks_the_key() {
    assert_eq!(
        keygen_response_of("success".to_string(), String::new()).map(|r| r.result.key),
        Err(ApiError::Protocol)
    );
    let r = keygen_response_of("success".to_string(), "k1".to_string()).unwrap();
    assert_eq!((r.response.status.as_str(), r.result.key.as_str()), ("success", "k1"));
    let e = keygen_response_of("error".to_string(), String::new()).unwrap();
    assert_eq!((e.response.status.as_str(), e.result.key.as_str()), ("error", ""));
}

#[test]
fn test_response_hands_over_its_text() {
    let t = TestResponse { text: "<x/>".to_string() };
    assert_eq!(t.text(), "<x/>");
}

#[test]
fn comments_and_doctype_are_skipped() {
    let doc = "<!DOCTYPE response><!-- reply --><response status='success'><result><!-- k --><key>ab<!-- - -->cd</key></result></response>";
    let r = decode_keygen_response(doc).unwrap();
    assert_eq!(r.result.key, "abcd");
}

#[test]
fn cdata_is_text_as_it_stands() {
    let doc = "<response status='success'><result><key><![CDATA[a&amp;<b>]]>&amp;c</key></result></response>";
    let r = decode_keygen_response(doc).unwrap();
    assert_eq!(r.result.key, "a&amp;<b>&c");
}

#[test]
fn unclosed_comment_or_cdata_is_a_protocol_error() {
    assert_eq!(decode_response("<response status='success'/><!-- open"), Err(ApiError::Protocol));
    let doc = "<response status='success'><result><key><![CDATA[ab</key></result></response>";
    assert_eq!(decode_keygen_response(doc).map(|r| r.result.key), Err(ApiError::Protocol));
    assert_eq!(decode_response("<![CDATA[x]]><response status='success'/>"), Err(ApiError::Protocol));
}

#[test]
fn doctype_with_internal_subset_is_skipped() {
    let doc = "<!DOCTYPE response [ <!ELEMENT response ANY> ]>\n<response status='success'><result><key>k9</key></result></response>";
    assert_eq!(decode_keygen_response(doc).unwrap().result.key, "k9");
}

#[test]
fn non_ascii_names_are_accepted() {
    let doc = "<response status='success'><résumé>x</résumé><result><key>k</key></result></response>";
    assert_eq!(decode_keygen_response(doc).unwrap().result.key, "k");
}

#[test]
fn status_other_than_success_or_error_is_a_protocol_error() {
    for doc in [
        "<response status='ok'><result><key>abcd1234</key></result></response>",
        "<response status=''/>",
        "<response status='Success'/>",
    ] {
        assert_eq!(decode_response(doc), Err(ApiError::Protocol));
        assert_eq!(decode_keygen_response(doc).map(|r| r.result.key), Err(ApiError::Protocol));
        assert_eq!(keygen_reply(doc), Err(ApiError::Protocol));
    }
}

#[test]
fn root_must_be_response() {
    let doc = "<reply status='success'><result><key>abcd1234</key></result></reply>";
    assert_eq!(decode_response(doc), Err(ApiError::Protocol));
    let text = TestResponse { text: doc.to_string() };
    assert_eq!(keygen_response_from_request(text).map(|r| r.result.key), Err(ApiError::Protocol));
}

#[test]
fn missing_status_is_a_protocol_error() {
    let doc = "<response><result><key>abcd1234</key></result></response>";
    assert_eq!(decode_response(doc), Err(ApiError::Protocol));
    assert_eq!(decode_keygen_response(doc).map(|r| r.result.key), Err(ApiError::Protocol));
    assert_eq!(keygen_reply(doc), Err(ApiError::Protocol));
}

#[test]
fn non_xml_is_a_protocol_error() {
    assert_eq!(decode_response("hello"), Err(ApiError::Protocol));
    assert_eq!(decode_response(""), Err(ApiError::Protocol));
    assert_eq!(decode_response("{\"status\": \"success\"}"), Err(ApiError::Protocol));
    assert_eq!(decode_response("<response status=success/>"), Err(ApiError::Protocol));
}

#[test]
fn truncated_xml_is_a_protocol_error() {
    let full = "<response status='success'><result><key>abcd1234</key></result></response>";
    for cut in [1, 10, 27, 40, 60, full.len() - 1] {
        assert_eq!(decode_keygen_response(&full[..cut]).map(|r| r.result.key), Err(ApiError::Protocol));
    }
}

#[test]
fn mismatched_or_extra_elements_are_protocol_errors() {
    assert_eq!(
        decode_response("<response status='success'><result></response></result>"),
        Err(ApiError::Protocol)
    );
    assert_eq!(
        decode_response("<response status='success'/><response status='success'/>"),
        Err(ApiError::Protocol)
    );
    assert_eq!(decode_response("<response status='success'/>trailing"), Err(ApiError::Protocol));
}

#[test]
fn unknown_entity_is_a_protocol_error() {
    let doc = "<response status='success'><result><key>a&bogus;</key></result></response>";
    assert_eq!(decode_keygen_response(doc).map(|r| r.result.key), Err(ApiError::Protocol));
}

#[test]
fn key_with_child_element_is_a_protocol_error() {
    let doc = "<response status='success'><result><key>a<b/>c</key></result></response>";
    assert_eq!(decode_keygen_response(doc).map(|r| r.result.key), Err(ApiError::Protocol));
}

#[test]
fn key_must_be_a_child_of_result() {
    let doc = "<response status='success'><result/><key>abcd</key></response>";
    assert_eq!(decode_keygen_response(doc).map(|r| r.result.key), Err(ApiError::Protocol));
    let nested = "<response status='success'><result><x><key>abcd</key></x></result></response>";
    assert_eq!(decode_keygen_response(nested).map(|r| r.result.key), Err(ApiError::Protocol));
}

#[test]
fn error_status_decodes_as_envelope() {
    let r = decode_response("<response status=\"error\"><msg>Invalid credentials.</msg></response>")
        .unwrap();
    assert_eq!(r.status, "error");
}

#[test]
fn keygen_reply_outcomes() {
    assert_eq!(
        keygen_reply("<response status='success'><result><key>abcd1234</key></result></response>"),
        Ok("abcd1234".to_string())
    );
    assert_eq!(
        keygen_reply("<response status='error'><result><key>abcd1234</key></result></response>"),
        Err(ApiError::Authentication { status: "error".to_string() })
    );
    assert_eq!(
        keygen_reply("<response status='error'><msg>Invalid credentials.</msg></response>"),
        Err(ApiError::Authentication { status: "error".to_string() })
    );
    assert_eq!(keygen_reply("<response status='success'/>"), Err(ApiError::Protocol));
    assert_eq!(
        keygen_reply("<response status='success'><result><key></key></result></response>"),
        Err(ApiError::Protocol)
    );
}

#[test]
fn session_key_outcomes() {
    assert_eq!(session_key("success".to_string(), Some("k".to_string())), Ok("k".to_string()));
    assert_eq!(session_key("success".to_string(), Some(String::new())), Err(ApiError::Protocol));
    assert_eq!(session_key("success".to_string(), None), Err(ApiError::Protocol));
    assert_eq!(
        session_key("error".to_string(), Some("k".to_string())),
        Err(ApiError::Authentication { status: "error".to_string() })
    );
}

use samari_catcher::ollama::{
    check_reply, ReplyError,
    endpoint_from_components, find_header_end, is_ok_status, ollama_endpoint, request_head,
    status_line, strip_code_fence, EndpointError,
};

#[test]
fn strip_fence_removes_lua_block() {
    let s = "```lua\nprint(1)\n```";
    assert_eq!(strip_code_fence(s), "print(1)");
}

#[test]
fn strip_fence_no_fence_is_identity() {
    let s = "print(1)\n-- ``` not a fence";
    assert_eq!(strip_code_fence(s), s);
}

#[test]
fn strip_fence_trims_outer_whitespace() {
    let s = "\n\n```python\nx = 1\n```\n\n";
    assert_eq!(strip_code_fence(s), "x = 1");
}

#[test]
fn strip_fence_without_language_line_is_identity() {
    let s = "```print(1)```";
    assert_eq!(strip_code_fence(s), s);
}

#[test]
fn strip_fence_without_closing_fence_is_identity() {
    let s = "```lua\nprint(1)\n";
    assert_eq!(strip_code_fence(s), s);
}

#[test]
fn strip_fence_uses_last_closing_fence() {
    let s = "```lua\na = \"```\"\nb = 2\n\n```";
    assert_eq!(strip_code_fence(s), "a = \"```\"\nb = 2");
}

#[test]
fn strip_fence_keeps_inner_indentation() {
    let s = " \t```\n  x\n```\r\n";
    assert_eq!(strip_code_fence(s), "  x");
}

#[test]
fn strip_fence_of_blank_answer_is_identity() {
    assert_eq!(strip_code_fence(" \n\t"), " \n\t");
    assert_eq!(strip_code_fence(""), "");
}

#[test]
fn endpoint_of_default_url() {
    match ollama_endpoint("http://localhost:11434") {
        Ok((host, port)) => {
            assert_eq!(host, "localhost");
            assert_eq!(port, 11434);
        }
        Err(e) => panic!("unexpected {:?}", e),
    }
}

#[test]
fn endpoint_port_defaults_to_ollama_port() {
    match ollama_endpoint("http://localhost/") {
        Ok((host, port)) => {
            assert_eq!(host, "localhost");
            assert_eq!(port, 11434);
        }
        Err(e) => panic!("unexpected {:?}", e),
    }
    match ollama_endpoint("http://127.0.0.1:8080/x") {
        Ok((host, port)) => {
            assert_eq!(host, "127.0.0.1");
            assert_eq!(port, 8080);
        }
        Err(e) => panic!("unexpected {:?}", e),
    }
    match ollama_endpoint("http://[::1]:9000") {
        Ok((host, port)) => {
            assert_eq!(host, "[::1]");
            assert_eq!(port, 9000);
        }
        Err(e) => panic!("unexpected {:?}", e),
    }
}

#[test]
fn endpoint_refuses_remote_hosts() {
    for url in ["http://example.com:11434", "http://10.0.0.2:8080/x", "http://127.evil.com/", "http://128.0.0.1/"] {
        match ollama_endpoint(url) {
            Err(EndpointError::NotLocal(h)) => assert!(!h.is_empty(), "{url}"),
            other => panic!("unexpected {:?} for {url}", other),
        }
    }
    match ollama_endpoint("http://example.com:11434") {
        Err(EndpointError::NotLocal(h)) => assert_eq!(h, "example.com"),
        other => panic!("unexpected {:?}", other),
    }
}

#[test]
fn endpoint_refuses_https() {
    match ollama_endpoint("https://localhost:11434") {
        Err(EndpointError::UnsupportedScheme(s)) => assert_eq!(s, "https"),
        other => panic!("unexpected {:?}", other),
    }
}

#[test]
fn endpoint_refuses_garbage() {
    assert!(matches!(ollama_endpoint("not a url"), Err(EndpointError::InvalidUrl)));
}

#[test]
fn endpoint_refuses_missing_host() {
    assert!(matches!(
        endpoint_from_components(Some(("http".to_string(), None, None))),
        Err(EndpointError::NoHost)
    ));
    assert!(matches!(
        endpoint_from_components(Some(("http".to_string(), Some("localhost".to_string()), Some(1)))),
        Ok(_)
    ));
    assert!(matches!(
        endpoint_from_components(Some(("http".to_string(), Some("h".to_string()), Some(1)))),
        Err(EndpointError::NotLocal(_))
    ));
    assert!(matches!(endpoint_from_components(None), Err(EndpointError::InvalidUrl)));
}

#[test]
fn header_end_is_first_blank_line() {
    let buf = b"HTTP/1.1 200 OK\r\nA: b\r\n\r\n{\"x\":\"\r\n\r\n\"}";
    assert_eq!(find_header_end(buf), Some(21));
    assert_eq!(find_header_end(b"HTTP/1.1 200 OK\r\n"), None);
    assert_eq!(find_header_end(b""), None);
    assert_eq!(find_header_end(b"\r\n\r\n"), Some(0));
}

#[test]
fn status_line_is_first_line() {
    assert_eq!(status_line("HTTP/1.1 200 OK\r\nContent-Type: x"), "HTTP/1.1 200 OK");
    assert_eq!(status_line("HTTP/1.1 404 Not Found"), "HTTP/1.1 404 Not Found");
    assert_eq!(status_line(""), "");
    assert_eq!(status_line("a\nb"), "a");
}

#[test]
fn ok_status_needs_200() {
    assert!(is_ok_status("HTTP/1.1 200 OK"));
    assert!(!is_ok_status("HTTP/1.1 404 Not Found"));
    assert!(!is_ok_status("HTTP/1.1 2000"));
    assert!(!is_ok_status(""));
}

#[test]
fn request_head_is_exact() {
    assert_eq!(
        request_head("localhost", 11434, 57),
        "POST /api/generate HTTP/1.1\r\nHost: localhost:11434\r\nUser-Agent: samari-catcher\r\nAccept: application/json\r\nContent-Type: application/json\r\nContent-Length: 57\r\nConnection: close\r\n\r\n"
    );
}

#[test]
fn reply_checks_head_and_status() {
    let ok = b"HTTP/1.1 200 OK\r\nContent-Type: application/json\r\n\r\n{\"response\":\"x\"}";
    let start = check_reply(ok).unwrap();
    assert_eq!(&ok[start..], b"{\"response\":\"x\"}");
    match check_reply(b"HTTP/1.1 404 Not Found\r\n\r\nnope") {
        Err(ReplyError::HttpStatus(line)) => assert_eq!(line, "HTTP/1.1 404 Not Found"),
        other => panic!("unexpected {:?}", other),
    }
    match check_reply(b"HTTP/1.1 200 \xff\r\n\r\n{}") {
        Err(ReplyError::HttpStatus(line)) => assert_eq!(line, ""),
        other => panic!("unexpected {:?}", other),
    }
    assert!(matches!(check_reply(b"HTTP/1.1 200 OK\r\n"), Err(ReplyError::MalformedReply)));
}

use ws::request::{bearer_authorization, exec_url, ClusterCredentials, ConnectRequest, ExecParameters, ExecTarget};

fn creds() -> ClusterCredentials {
    ClusterCredentials {
        host: "10.0.0.1".to_string(),
        port: "443".to_string(),
        token: "abc.def".to_string(),
        ca_pem: Vec::new(),
    }
}

fn params(command: &[&str]) -> ExecParameters {
    ExecParameters {
        container: "web-term".to_string(),
        stdin: true,
        stdout: true,
        stderr: true,
        tty: true,
        command: command.iter().map(|w| w.to_string()).collect(),
        pretty: true,
        follow: true,
    }
}

#[test]
fn path_joins_segments_in_order() {
    let t = ExecTarget::for_pod("default", "web-term-559fdfcd89-gndr5");
    assert_eq!(t.path(), "/api/v1/namespaces/default/pods/web-term-559fdfcd89-gndr5/exec");
}

#[test]
fn path_of_custom_segments() {
    let t = ExecTarget {
        base_path: "/a".to_string(),
        namespace: "/b".to_string(),
        pod: "/c".to_string(),
        operation: "/d".to_string(),
    };
    assert_eq!(t.path(), "/a/b/c/d");
}

#[test]
fn url_carries_all_parameters() {
    let t = ExecTarget::for_pod("default", "web-term-559fdfcd89-gndr5");
    let url = exec_url(&creds(), &t, &params(&["ls"]));
    assert_eq!(
        url,
        "wss://10.0.0.1:443/api/v1/namespaces/default/pods/web-term-559fdfcd89-gndr5/exec\
         ?container=web-term&stdin=true&stdout=true&stderr=true&tty=true&command=ls&pretty=true&follow=true"
    );
}

#[test]
fn query_repeats_command_words_and_escapes() {
    let q = params(&["sh", "-c", "echo hi&bye"]).query();
    assert_eq!(
        q,
        "container=web-term&stdin=true&stdout=true&stderr=true&tty=true\
         &command=sh&command=-c&command=echo%20hi%26bye&pretty=true&follow=true"
    );
}

#[test]
fn query_writes_false_flags() {
    let mut p = params(&[]);
    p.stdin = false;
    p.tty = false;
    p.follow = false;
    assert_eq!(
        p.query(),
        "container=web-term&stdin=false&stdout=true&stderr=true&tty=false&pretty=true&follow=false"
    );
}

#[test]
fn query_escapes_non_ascii_as_utf8_bytes() {
    let mut p = params(&["ls"]);
    p.container = "é/~".to_string();
    let q = p.query();
    assert!(q.starts_with("container=%C3%A9%2F~&"));
    assert_eq!(p.query_bytes(), q.into_bytes());
}

#[test]
fn bearer_header_value() {
    assert_eq!(bearer_authorization("abc.def"), "Bearer abc.def");
}

#[test]
fn connect_request_fields() {
    let t = ExecTarget::for_pod("default", "p");
    let r = ConnectRequest::new(&creds(), &t, &params(&["ls"]));
    assert_eq!(r.authorization, "Bearer abc.def");
    assert_eq!(r.protocol, "v4.channel.k8s.io");
    assert!(r.url.starts_with("wss://10.0.0.1:443/api/v1/namespaces/default/pods/p/exec?container=web-term&"));
}

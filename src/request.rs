//! The connection request for the exec subresource: URL, query string,
//! authorization and WebSocket sub-protocol.

use vstd::prelude::*;
use vstd::string::StringExecFns;
use vstd::utf8::{encode_utf8, encode_utf8_valid_utf8, valid_utf8, valid_utf8_concat};
use crate::encoding::{
    is_ascii_bytes, lemma_ascii_valid_utf8, lemma_percent_encode_ascii, percent_encode,
    push_escaped, push_str_bytes, string_from_utf8,
};

verus! {

/// Where the cluster API is reached and how to authenticate to it.
pub struct ClusterCredentials {
    pub host: String,
    pub port: String,
    pub token: String,
    /// PEM-encoded certificate of the authority that issued the cluster's certificate.
    pub ca_pem: Vec<u8>,
}

/// Path segments of the exec endpoint, each with its leading `/`, joined in
/// this order.
pub struct ExecTarget {
    pub base_path: String,
    pub namespace: String,
    pub pod: String,
    pub operation: String,
}

/// What the remote command is and which of its streams are attached.
pub struct ExecParameters {
    pub container: String,
    pub stdin: bool,
    pub stdout: bool,
    pub stderr: bool,
    pub tty: bool,
    /// The command and its arguments, one query entry each.
    pub command: Vec<String>,
    pub pretty: bool,
    pub follow: bool,
}

/// Everything the WebSocket handshake needs.
pub struct ConnectRequest {
    pub url: String,
    /// Value of the `Authorization` header.
    pub authorization: String,
    /// Value of the `Sec-WebSocket-Protocol` header.
    pub protocol: String,
}

pub open spec fn bool_text(b: bool) -> Seq<char> {
    if b {
        "true"@
    } else {
        "false"@
    }
}

/// `name=value`, both percent-encoded.
pub open spec fn pair_bytes(pair: (Seq<char>, Seq<char>)) -> Seq<u8> {
    percent_encode(encode_utf8(pair.0)) + seq![0x3du8] + percent_encode(encode_utf8(pair.1))
}

/// The pairs joined by `&`.
pub open spec fn form_encode(pairs: Seq<(Seq<char>, Seq<char>)>) -> Seq<u8>
    decreases pairs.len(),
{
    if pairs.len() == 0 {
        seq![]
    } else if pairs.len() == 1 {
        pair_bytes(pairs[0])
    } else {
        form_encode(pairs.drop_last()) + seq![0x26u8] + pair_bytes(pairs.last())
    }
}

pub proof fn lemma_form_encode_ascii(pairs: Seq<(Seq<char>, Seq<char>)>)
    ensures
        is_ascii_bytes(form_encode(pairs)),
    decreases pairs.len(),
{
    if pairs.len() > 0 {
        let p = pairs.last();
        lemma_percent_encode_ascii(encode_utf8(p.0));
        lemma_percent_encode_ascii(encode_utf8(p.1));
        let a = percent_encode(encode_utf8(p.0));
        let b = percent_encode(encode_utf8(p.1));
        let pb = pair_bytes(p);
        assert forall|i: int| 0 <= i < pb.len() implies #[trigger] pb[i] < 0x80 by {
            if i < a.len() {
                assert(pb[i] == a[i]);
            } else if i > a.len() {
                assert(pb[i] == b[i - a.len() - 1]);
            }
        }
        if pairs.len() > 1 {
            lemma_form_encode_ascii(pairs.drop_last());
            let h = form_encode(pairs.drop_last());
            let all = h + seq![0x26u8] + pb;
            assert forall|i: int| 0 <= i < all.len() implies #[trigger] all[i] < 0x80 by {
                if i < h.len() {
                    assert(all[i] == h[i]);
                } else if i > h.len() {
                    assert(all[i] == pb[i - h.len() - 1]);
                }
            }
        } else {
            assert(pairs[0] == p);
        }
    }
}

impl ExecTarget {
    /// The request path: the segments in order.
    pub open spec fn path_text(&self) -> Seq<char> {
        self.base_path@ + self.namespace@ + self.pod@ + self.operation@
    }

    /// The exec endpoint of pod `pod` in namespace `namespace` under `/api/v1`.
    pub fn for_pod(namespace: &str, pod: &str) -> (r: ExecTarget)
        ensures
            r.base_path@ == "/api/v1"@,
            r.namespace@ == "/namespaces/"@ + namespace@,
            r.pod@ == "/pods/"@ + pod@,
            r.operation@ == "/exec"@,
    {
        ExecTarget {
            base_path: String::from_str("/api/v1"),
            namespace: String::from_str("/namespaces/").concat(namespace),
            pod: String::from_str("/pods/").concat(pod),
            operation: String::from_str("/exec"),
        }
    }

    pub fn path(&self) -> (r: String)
        ensures
            r@ == self.path_text(),
    {
        let mut p = self.base_path.clone();
        p.append(self.namespace.as_str());
        p.append(self.pod.as_str());
        p.append(self.operation.as_str());
        p
    }
}


fn bool_str(b: bool) -> (r: &'static str)
    ensures
        r@ == bool_text(b),
{
    if b {
        "true"
    } else {
        "false"
    }
}

proof fn lemma_form_encode_empty(pairs: Seq<(Seq<char>, Seq<char>)>)
    ensures
        form_encode(pairs).len() == 0 <==> pairs.len() == 0,
{
    if pairs.len() == 1 {
        assert(pair_bytes(pairs[0]).len() > 0);
    }
}

/// Appends one more `name=value` pair to an encoded form.
fn push_pair(out: &mut Vec<u8>, Ghost(pairs): Ghost<Seq<(Seq<char>, Seq<char>)>>, name: &str, value: &str)
    requires
        old(out)@ == form_encode(pairs),
    ensures
        final(out)@ == form_encode(pairs.push((name@, value@))),
{
    let ghost grown = pairs.push((name@, value@));
    proof {
        lemma_form_encode_empty(pairs);
        assert(grown.drop_last() =~= pairs);
        assert(grown.last() == (name@, value@));
    }
    if out.len() > 0 {
        out.push(0x26);
    } else {
        assert(grown[0] == (name@, value@));
    }
    push_escaped(out, name);
    out.push(0x3d);
    push_escaped(out, value);
    assert(out@ =~= form_encode(grown));
}

impl ExecParameters {
    /// The query entries, in order: container, the stream flags, tty, one
    /// `command` entry per word of the command, pretty and follow.
    pub open spec fn query_pairs(&self) -> Seq<(Seq<char>, Seq<char>)> {
        seq![
            ("container"@, self.container@),
            ("stdin"@, bool_text(self.stdin)),
            ("stdout"@, bool_text(self.stdout)),
            ("stderr"@, bool_text(self.stderr)),
            ("tty"@, bool_text(self.tty)),
        ] + self.command@.map_values(|w: String| ("command"@, w@)) + seq![
            ("pretty"@, bool_text(self.pretty)),
            ("follow"@, bool_text(self.follow)),
        ]
    }

    /// The encoded query string, without the leading `?`.
    pub fn query_bytes(&self) -> (r: Vec<u8>)
        ensures
            r@ == form_encode(self.query_pairs()),
    {
        let mut out: Vec<u8> = Vec::new();
        let ghost mut pairs: Seq<(Seq<char>, Seq<char>)> = seq![];
        assert(out@ =~= form_encode(pairs));
        push_pair(&mut out, Ghost(pairs), "container", self.container.as_str());
        proof { pairs = pairs.push(("container"@, self.container@)); }
        push_pair(&mut out, Ghost(pairs), "stdin", bool_str(self.stdin));
        proof { pairs = pairs.push(("stdin"@, bool_text(self.stdin))); }
        push_pair(&mut out, Ghost(pairs), "stdout", bool_str(self.stdout));
        proof { pairs = pairs.push(("stdout"@, bool_text(self.stdout))); }
        push_pair(&mut out, Ghost(pairs), "stderr", bool_str(self.stderr));
        proof { pairs = pairs.push(("stderr"@, bool_text(self.stderr))); }
        push_pair(&mut out, Ghost(pairs), "tty", bool_str(self.tty));
        proof { pairs = pairs.push(("tty"@, bool_text(self.tty))); }
        let ghost head = pairs;
        let mut i: usize = 0;
        while i < self.command.len()
            invariant
                i <= self.command@.len(),
                pairs == head + self.command@.subrange(0, i as int).map_values(
                    |w: String| ("command"@, w@),
                ),
                out@ == form_encode(pairs),
            decreases self.command@.len() - i,
        {
            push_pair(&mut out, Ghost(pairs), "command", self.command[i].as_str());
            proof {
                pairs = pairs.push(("command"@, self.command@[i as int]@));
                assert(pairs =~= head + self.command@.subrange(0, i + 1).map_values(
                    |w: String| ("command"@, w@),
                ));
            }
            i = i + 1;
        }
        push_pair(&mut out, Ghost(pairs), "pretty", bool_str(self.pretty));
        proof { pairs = pairs.push(("pretty"@, bool_text(self.pretty))); }
        push_pair(&mut out, Ghost(pairs), "follow", bool_str(self.follow));
        proof {
            pairs = pairs.push(("follow"@, bool_text(self.follow)));
            assert(self.command@.subrange(0, i as int) =~= self.command@);
            assert(pairs =~= self.query_pairs());
        }
        out
    }

    /// The encoded query string, without the leading `?`.
    pub fn query(&self) -> (r: String)
        ensures
            encode_utf8(r@) == form_encode(self.query_pairs()),
    {
        let bytes = self.query_bytes();
        proof {
            lemma_form_encode_ascii(self.query_pairs());
            lemma_ascii_valid_utf8(bytes@);
        }
        string_from_utf8(&bytes)
    }
}

/// The bytes of the exec URL: secure WebSocket scheme, host, port, path,
/// then the query.
pub open spec fn url_bytes(c: &ClusterCredentials, t: &ExecTarget, p: &ExecParameters) -> Seq<u8> {
    encode_utf8("wss://"@ + c.host@ + ":"@ + c.port@ + t.path_text()) + seq![0x3fu8] + form_encode(
        p.query_pairs(),
    )
}

/// The URL of the exec endpoint of `target` on the cluster of `creds`.
pub fn exec_url(creds: &ClusterCredentials, target: &ExecTarget, params: &ExecParameters) -> (r:
    String)
    ensures
        encode_utf8(r@) == url_bytes(creds, target, params),
{
    let mut front = String::from_str("wss://");
    front.append(creds.host.as_str());
    front.append(":");
    front.append(creds.port.as_str());
    let path = target.path();
    front.append(path.as_str());
    let mut out: Vec<u8> = Vec::new();
    push_str_bytes(&mut out, front.as_str());
    let ghost first = out@;
    let mut query = params.query_bytes();
    let mut rest: Vec<u8> = Vec::new();
    rest.push(0x3f);
    rest.append(&mut query);
    proof {
        lemma_form_encode_ascii(params.query_pairs());
        let q = form_encode(params.query_pairs());
        assert(rest@ =~= seq![0x3fu8] + q);
        assert forall|i: int| 0 <= i < rest@.len() implies #[trigger] rest@[i] < 0x80 by {
            if i > 0 {
                assert(rest@[i] == q[i - 1]);
            }
        }
        lemma_ascii_valid_utf8(rest@);
        encode_utf8_valid_utf8(front@);
    }
    out.append(&mut rest);
    proof {
        assert(first == encode_utf8("wss://"@ + creds.host@ + ":"@ + creds.port@ + target.path_text()));
        valid_utf8_concat(first, seq![0x3fu8] + form_encode(params.query_pairs()));
        assert(out@ =~= url_bytes(creds, target, params));
    }
    string_from_utf8(&out)
}

/// The `Authorization` header value that carries a bearer token.
pub fn bearer_authorization(token: &str) -> (r: String)
    ensures
        r@ == "Bearer "@ + token@,
{
    String::from_str("Bearer ").concat(token)
}

impl ConnectRequest {
    /// The handshake request for an exec session: the exec URL, the bearer
    /// token and the channel sub-protocol.
    pub fn new(creds: &ClusterCredentials, target: &ExecTarget, params: &ExecParameters) -> (r:
        ConnectRequest)
        ensures
            encode_utf8(r.url@) == url_bytes(creds, target, params),
            r.authorization@ == "Bearer "@ + creds.token@,
            r.protocol@ == "v4.channel.k8s.io"@,
    {
        ConnectRequest {
            url: exec_url(creds, target, params),
            authorization: bearer_authorization(creds.token.as_str()),
            protocol: String::from_str("v4.channel.k8s.io"),
        }
    }
}

} // verus!

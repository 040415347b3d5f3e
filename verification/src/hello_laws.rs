use vstd::prelude::*;

use crate::dns_laws::lemma_be16_roundtrip;
use crate::dns_message::{be16, u16_be_bytes};
use crate::tls_hello::{find_sni, parse_client_hello, parse_hello_body, sni_host, HelloSummary};

verus! {

/// A server_name extension naming one host: type 0, its length, then a list
/// of one host-name entry (kind 0, length, name).
pub open spec fn sni_extension(host: Seq<u8>) -> Seq<u8> {
    u16_be_bytes(0) + u16_be_bytes((host.len() + 5) as u16) + u16_be_bytes((host.len() + 3) as u16)
        + seq![0u8] + u16_be_bytes(host.len() as u16) + host
}

/// A ClientHello body as a client writes it: version, 32 random bytes,
/// session id, cipher suites and compression methods (each with its length),
/// then the extension block with its length.
pub open spec fn hello_body(
    version: u16,
    random: Seq<u8>,
    session_id: Seq<u8>,
    suites: Seq<u8>,
    compression: Seq<u8>,
    extensions: Seq<u8>,
) -> Seq<u8> {
    u16_be_bytes(version) + random + seq![session_id.len() as u8] + session_id + u16_be_bytes(
        suites.len() as u16,
    ) + suites + seq![compression.len() as u8] + compression + u16_be_bytes(extensions.len() as u16)
        + extensions
}

/// A ClientHello handshake message: type 1, the body's length in three
/// bytes, the body.
pub open spec fn client_hello_message(body: Seq<u8>) -> Seq<u8> {
    seq![1u8, (body.len() / 65536) as u8, ((body.len() / 256) % 256) as u8, (body.len() % 256) as u8] + body
}

/// The host named by a server_name extension at the head of an extension
/// block is what the block yields, whatever extensions follow.
pub proof fn lemma_find_sni_first(host: Seq<u8>, more: Seq<u8>)
    requires
        host.len() + 5 < 0x10000,
    ensures
        find_sni(sni_extension(host) + more) == Some(host),
{
    let ext = sni_extension(host) + more;
    let hl = host.len() as int;
    lemma_be16_roundtrip(0);
    lemma_be16_roundtrip((hl + 5) as u16);
    lemma_be16_roundtrip((hl + 3) as u16);
    lemma_be16_roundtrip(hl as u16);
    assert(ext[0] == u16_be_bytes(0)[0] && ext[1] == u16_be_bytes(0)[1]);
    assert(ext[2] == u16_be_bytes((hl + 5) as u16)[0] && ext[3] == u16_be_bytes((hl + 5) as u16)[1]);
    let d = ext.subrange(4, 4 + hl + 5);
    assert(d =~= u16_be_bytes((hl + 3) as u16) + seq![0u8] + u16_be_bytes(hl as u16) + host);
    assert(d[0] == u16_be_bytes((hl + 3) as u16)[0] && d[1] == u16_be_bytes((hl + 3) as u16)[1]);
    assert(d[3] == u16_be_bytes(hl as u16)[0] && d[4] == u16_be_bytes(hl as u16)[1]);
    assert(d.subrange(5, 5 + hl) =~= host);
    assert(sni_host(d) == Some(host));
}

/// The summary of a ClientHello is its version, the length of its
/// cipher-suite list and the host of its server_name extension, whatever its
/// random bytes, session id (of any length a byte can give) and compression
/// methods are, and whatever extensions follow the server_name one.
pub proof fn law_client_hello_summary(
    version: u16,
    random: Seq<u8>,
    session_id: Seq<u8>,
    suites: Seq<u8>,
    compression: Seq<u8>,
    host: Seq<u8>,
    more: Seq<u8>,
)
    requires
        random.len() == 32,
        session_id.len() < 256,
        suites.len() < 0x10000,
        compression.len() < 256,
        sni_extension(host).len() + more.len() < 0x10000,
        hello_body(version, random, session_id, suites, compression, sni_extension(host) + more).len()
            < 0x1000000,
    ensures
        parse_client_hello(
            client_hello_message(hello_body(version, random, session_id, suites, compression, sni_extension(host) + more)),
        ) == Some(HelloSummary { version, cipher_suites_len: suites.len() as u16, sni: Some(host) }),
{
    let ext = sni_extension(host) + more;
    let b = hello_body(version, random, session_id, suites, compression, ext);
    let m = client_hello_message(b);
    let n = b.len() as int;
    assert(m[1] as int * 65536 + m[2] as int * 256 + m[3] as int == n) by (nonlinear_arith)
        requires
            m[1] == (n / 65536) as u8,
            m[2] == ((n / 256) % 256) as u8,
            m[3] == (n % 256) as u8,
            0 <= n < 0x1000000,
    {
    }
    assert(m.subrange(4, 4 + n) =~= b);
    let sl = session_id.len() as int;
    let cl = suites.len() as int;
    let ml = compression.len() as int;
    let el = ext.len() as int;
    lemma_be16_roundtrip(version);
    lemma_be16_roundtrip(cl as u16);
    lemma_be16_roundtrip(el as u16);
    assert(b[0] == u16_be_bytes(version)[0] && b[1] == u16_be_bytes(version)[1]);
    assert(b[34] == sl as u8);
    let o1 = 35 + sl;
    assert(b[o1] == u16_be_bytes(cl as u16)[0] && b[o1 + 1] == u16_be_bytes(cl as u16)[1]);
    let o2 = o1 + 2 + cl;
    assert(b[o2] == ml as u8);
    let o3 = o2 + 1 + ml;
    assert(b[o3] == u16_be_bytes(el as u16)[0] && b[o3 + 1] == u16_be_bytes(el as u16)[1]);
    assert(n == o3 + 2 + el);
    assert(b.subrange(o3 + 2, o3 + 2 + el) =~= ext);
    lemma_find_sni_first(host, more);
    assert(parse_hello_body(b) == Some(HelloSummary { version, cipher_suites_len: cl as u16, sni: Some(host) }));
}

} // verus!

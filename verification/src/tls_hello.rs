use vstd::prelude::*;

use crate::dns_message::{be16, read_be16};

verus! {

/// What the head of a ClientHello tells: the client's version, the length in
/// bytes of its cipher-suite list, and the host name of its SNI extension.
pub struct HelloSummary {
    pub version: u16,
    pub cipher_suites_len: u16,
    pub sni: Option<Seq<u8>>,
}

/// The host name of a server_name extension's data: the first entry of its
/// list, when that entry is a host name and everything fits.
pub open spec fn sni_host(d: Seq<u8>) -> Option<Seq<u8>> {
    if d.len() < 2 {
        None
    } else {
        let list_len = be16(d[0], d[1]) as int;
        if 2 + list_len > d.len() || list_len < 3 {
            None
        } else {
            let name_len = be16(d[3], d[4]) as int;
            if d[2] != 0 || 3 + name_len > list_len {
                None
            } else {
                Some(d.subrange(5, 5 + name_len))
            }
        }
    }
}

/// The SNI host name in a block of extensions (type, length, data; one after
/// another): that of the first server_name extension, if all extensions up to
/// it fit.
pub open spec fn find_sni(ext: Seq<u8>) -> Option<Seq<u8>>
    decreases ext.len(),
{
    if ext.len() < 4 {
        None
    } else {
        let t = be16(ext[0], ext[1]);
        let l = be16(ext[2], ext[3]) as int;
        if 4 + l > ext.len() {
            None
        } else if t == 0 {
            sni_host(ext.subrange(4, 4 + l))
        } else {
            find_sni(ext.subrange(4 + l, ext.len() as int))
        }
    }
}

/// The summary of a ClientHello body (after the handshake header): version,
/// random, session id, cipher suites, compression methods, then optional
/// extensions; `None` when a part does not fit.
pub open spec fn parse_hello_body(b: Seq<u8>) -> Option<HelloSummary> {
    if b.len() < 35 {
        None
    } else {
        let version = be16(b[0], b[1]);
        let o1 = 35 + b[34];
        if o1 + 2 > b.len() {
            None
        } else {
            let cs = be16(b[o1], b[o1 + 1]);
            let o2 = o1 + 2 + cs;
            if o2 + 1 > b.len() {
                None
            } else {
                let o3 = o2 + 1 + b[o2];
                if o3 > b.len() {
                    None
                } else if o3 == b.len() {
                    Some(HelloSummary { version, cipher_suites_len: cs, sni: None })
                } else if o3 + 2 > b.len() {
                    None
                } else {
                    let el = be16(b[o3], b[o3 + 1]) as int;
                    if o3 + 2 + el > b.len() {
                        None
                    } else {
                        Some(HelloSummary {
                            version,
                            cipher_suites_len: cs,
                            sni: find_sni(b.subrange(o3 + 2, o3 + 2 + el)),
                        })
                    }
                }
            }
        }
    }
}

/// The summary of a handshake message, when it is a ClientHello whose body
/// fits in `p`.
pub open spec fn parse_client_hello(p: Seq<u8>) -> Option<HelloSummary> {
    if p.len() < 4 || p[0] != 1 {
        None
    } else {
        let hlen = p[1] as int * 65536 + p[2] as int * 256 + p[3] as int;
        if 4 + hlen > p.len() {
            None
        } else {
            parse_hello_body(p.subrange(4, 4 + hlen))
        }
    }
}

/// A ClientHello summary with the host name given as bounds into the data.
pub struct HelloInfo {
    pub version: u16,
    pub cipher_suites_len: u16,
    pub sni: Option<(usize, usize)>,
}

/// The summary that `info` gives of `data`.
pub open spec fn info_summary(info: HelloInfo, data: Seq<u8>) -> HelloSummary {
    HelloSummary {
        version: info.version,
        cipher_suites_len: info.cipher_suites_len,
        sni: match info.sni {
            Some((a, b)) => Some(data.subrange(a as int, b as int)),
            None => None,
        },
    }
}

/// The bounds of the SNI host name in `p[from..to]`, as `sni_host` says.
fn sni_host_bounds(p: &[u8], from: usize, to: usize) -> (res: Option<(usize, usize)>)
    requires
        from <= to <= p@.len(),
    ensures
        match res {
            Some((a, b)) => from <= a <= b <= to && sni_host(p@.subrange(from as int, to as int)) == Some(p@.subrange(a as int, b as int)),
            None => sni_host(p@.subrange(from as int, to as int)) is None,
        },
{
    let ghost d = p@.subrange(from as int, to as int);
    if to - from < 2 {
        return None;
    }
    let list_len = read_be16(p[from], p[from + 1]) as usize;
    if list_len > to - from - 2 || list_len < 3 {
        return None;
    }
    let name_len = read_be16(p[from + 3], p[from + 4]) as usize;
    if p[from + 2] != 0 || name_len > list_len - 3 {
        return None;
    }
    assert(p@.subrange(from + 5, from + 5 + name_len) =~= d.subrange(5, 5 + name_len));
    Some((from + 5, from + 5 + name_len))
}

/// The bounds of the SNI host name in the extensions `p[from..to]`, as
/// `find_sni` says.
fn find_sni_bounds(p: &[u8], from: usize, to: usize) -> (res: Option<(usize, usize)>)
    requires
        from <= to <= p@.len(),
    ensures
        match res {
            Some((a, b)) => a <= b <= p@.len() && find_sni(p@.subrange(from as int, to as int)) == Some(p@.subrange(a as int, b as int)),
            None => find_sni(p@.subrange(from as int, to as int)) is None,
        },
{
    let mut pos = from;
    while pos <= to
        invariant
            from <= pos,
            to <= p@.len(),
            pos <= to,
            find_sni(p@.subrange(pos as int, to as int)) == find_sni(p@.subrange(from as int, to as int)),
        decreases to - pos,
    {
        let ghost e = p@.subrange(pos as int, to as int);
        if to - pos < 4 {
            return None;
        }
        let t = read_be16(p[pos], p[pos + 1]);
        let l = read_be16(p[pos + 2], p[pos + 3]) as usize;
        if l > to - pos - 4 {
            return None;
        }
        if t == 0 {
            assert(p@.subrange(pos + 4, pos + 4 + l) =~= e.subrange(4, 4 + l));
            return sni_host_bounds(p, pos + 4, pos + 4 + l);
        }
        assert(p@.subrange(pos + 4 + l, to as int) =~= e.subrange(4 + l, e.len() as int));
        pos = pos + 4 + l;
    }
    None
}

/// Summarises the ClientHello body `p[s..e]`, as `parse_hello_body` says;
/// host-name bounds index into `p`.
fn hello_body_info(p: &[u8], s: usize, e: usize) -> (res: Option<HelloInfo>)
    requires
        s <= e <= p@.len(),
    ensures
        match res {
            Some(info) => parse_hello_body(p@.subrange(s as int, e as int)) == Some(info_summary(info, p@)),
            None => parse_hello_body(p@.subrange(s as int, e as int)) is None,
        },
        res matches Some(info) ==> (info.sni matches Some((a, b)) ==> a <= b <= p@.len()),
{
    let ghost b = p@.subrange(s as int, e as int);
    let hlen = e - s;
    if hlen < 35 {
        return None;
    }
    assert(b[0] == p@[s as int] && b[1] == p@[s + 1] && b[34] == p@[s + 34]);
    let version = read_be16(p[s], p[s + 1]);
    let o1 = 35 + p[s + 34] as usize;
    if o1 + 2 > hlen {
        return None;
    }
    assert(b[o1 as int] == p@[s + o1] && b[o1 + 1] == p@[s + o1 + 1]);
    let cs = read_be16(p[s + o1], p[s + o1 + 1]);
    let o2 = o1 + 2 + cs as usize;
    if o2 + 1 > hlen {
        return None;
    }
    assert(b[o2 as int] == p@[s + o2]);
    let o3 = o2 + 1 + p[s + o2] as usize;
    if o3 > hlen {
        return None;
    }
    if o3 == hlen {
        return Some(HelloInfo { version, cipher_suites_len: cs, sni: None });
    }
    if o3 + 2 > hlen {
        return None;
    }
    assert(b[o3 as int] == p@[s + o3] && b[o3 + 1] == p@[s + o3 + 1]);
    let el = read_be16(p[s + o3], p[s + o3 + 1]) as usize;
    if o3 + 2 + el > hlen {
        return None;
    }
    assert(p@.subrange(s + o3 + 2, s + o3 + 2 + el) =~= b.subrange(o3 + 2, o3 + 2 + el));
    let sni = find_sni_bounds(p, s + o3 + 2, s + o3 + 2 + el);
    Some(HelloInfo { version, cipher_suites_len: cs, sni })
}

/// Summarises the handshake message `p[from..]` when it is a ClientHello, as
/// `parse_client_hello` says; host-name bounds index into `p`.
pub fn client_hello_info(p: &[u8], from: usize) -> (res: Option<HelloInfo>)
    requires
        from <= p@.len(),
    ensures
        match res {
            Some(info) => parse_client_hello(p@.skip(from as int)) == Some(info_summary(info, p@)),
            None => parse_client_hello(p@.skip(from as int)) is None,
        },
        res matches Some(info) ==> (info.sni matches Some((a, b)) ==> a <= b <= p@.len()),
{
    let ghost q = p@.skip(from as int);
    let n = p.len() - from;
    if n < 4 || p[from] != 1 {
        return None;
    }
    let hlen = (p[from + 1] as usize) * 65536 + (p[from + 2] as usize) * 256 + p[from + 3] as usize;
    if hlen > n - 4 {
        return None;
    }
    assert(p@.subrange(from + 4, from + 4 + hlen) =~= q.subrange(4, 4 + hlen));
    hello_body_info(p, from + 4, from + 4 + hlen)
}

} // verus!

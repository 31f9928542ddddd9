//! Which certificates a connection trusts.
//!
//! Without verification any certificate is taken. With it, those of the operating system
//! are trusted, and those of a PEM file that the user names.

use rustls::RootCertStore;
use vstd::prelude::*;
use crate::config::SslMode;
use crate::error::DbError;

verus! {

/// What `rustls_pemfile::certs` reads from the bytes of a PEM file: each certificate as its
/// DER bytes, or the message of an error.
pub uninterp spec fn pem_certs(pem: Seq<u8>) -> Seq<Result<Seq<u8>, Seq<char>>>;

/// What is kept of a trusted certificate: the bytes of its subject, of its public key and of
/// its name constraints.
pub type Anchor = (Seq<u8>, Seq<u8>, Option<Seq<u8>>);

/// What `rustls::RootCertStore::add` keeps of a certificate, given by its DER bytes, or why
/// it does not take it.
pub uninterp spec fn anchor_of(der: Seq<u8>) -> Result<Anchor, Seq<char>>;

/// The trust anchors in a store of roots, in order.
pub uninterp spec fn trusted(store: RootCertStore) -> Seq<Anchor>;

/// The store of roots of `rustls`.
#[verifier::external_type_specification]
#[verifier::external_body]
pub struct ExRootCertStore(RootCertStore);

/// The contents of what was read from a PEM file.
pub open spec fn der_results(
    items: Seq<Result<Vec<u8>, String>>,
) -> Seq<Result<Seq<u8>, Seq<char>>> {
    items.map_values(
        |r: Result<Vec<u8>, String>|
            match r {
                Ok(der) => Ok(der@),
                Err(e) => Err(e@),
            },
    )
}

/// `rustls_pemfile::certs`: the certificates of a PEM file and the errors in it, in order,
/// which depend on its bytes alone.
#[verifier::external_body]
fn read_pem(pem: &[u8]) -> (r: Vec<Result<Vec<u8>, String>>)
    ensures
        der_results(r@) == pem_certs(pem@),
{
    let mut bytes = pem;
    rustls_pemfile::certs(&mut bytes)
        .map(|c| c.map(|der| der.as_ref().to_vec()).map_err(|e| e.to_string()))
        .collect()
}

/// `rustls::RootCertStore::empty`: a store without trust anchors.
#[verifier::external_body]
fn no_roots() -> (r: RootCertStore)
    ensures
        trusted(r).len() == 0,
{
    RootCertStore::empty()
}

/// `rustls::RootCertStore::add`: the trust anchor that can be made from a certificate is
/// added behind the others; where none can be made the error says why, and nothing is added.
/// Which it is, and what the anchor holds, depends on the bytes of the certificate alone.
#[verifier::external_body]
fn add_root(store: &mut RootCertStore, der: Vec<u8>) -> (r: Result<(), String>)
    ensures
        (match r {
            Ok(_) => anchor_of(der@) is Ok && trusted(*final(store)) == trusted(*old(store)).push(
                anchor_of(der@)->Ok_0,
            ),
            Err(e) => anchor_of(der@) is Err && anchor_of(der@)->Err_0 == e@ && trusted(
                *final(store),
            ) == trusted(*old(store)),
        }),
{
    store.add(der.into()).map_err(|e| e.to_string())
}

/// A PEM file that the user named: its path, and its bytes or why it could not be read.
pub struct RootFile {
    pub path: String,
    pub contents: Result<Vec<u8>, String>,
}

/// The trust anchors of the certificates that have one, in order; the others are passed over.
pub open spec fn usable(certs: Seq<Seq<u8>>) -> Seq<Anchor>
    decreases certs.len(),
{
    if certs.len() == 0 {
        Seq::empty()
    } else {
        match anchor_of(certs.last()) {
            Ok(anchor) => usable(certs.drop_last()).push(anchor),
            Err(_) => usable(certs.drop_last()),
        }
    }
}

/// The trust anchors with those of a file added, or the first error among them.
pub open spec fn with_file(
    base: Seq<Anchor>,
    items: Seq<Result<Seq<u8>, Seq<char>>>,
) -> Result<Seq<Anchor>, Seq<char>>
    decreases items.len(),
{
    if items.len() == 0 {
        Ok(base)
    } else {
        match with_file(base, items.drop_last()) {
            Err(e) => Err(e),
            Ok(certs) => match items.last() {
                Err(e) => Err(e),
                Ok(der) => match anchor_of(der) {
                    Ok(anchor) => Ok(certs.push(anchor)),
                    Err(e) => Err(e),
                },
            },
        }
    }
}

/// The trust anchors of a connection; `None` where it takes any.
pub open spec fn roots_for(
    mode: SslMode,
    native: Seq<Seq<u8>>,
    file: Option<RootFile>,
) -> Result<Option<Seq<Anchor>>, Seq<char>> {
    if !mode.must_verify() {
        Ok(None)
    } else {
        match file {
            None => Ok(Some(usable(native))),
            Some(f) => match f.contents {
                Err(e) => Err("reading "@ + f.path@ + ": "@ + e@),
                Ok(pem) => match with_file(usable(native), pem_certs(pem@)) {
                    Ok(certs) => Ok(Some(certs)),
                    Err(e) => Err(e),
                },
            },
        }
    }
}

proof fn lemma_fault_stays(
    base: Seq<Anchor>,
    items: Seq<Result<Seq<u8>, Seq<char>>>,
    k: int,
)
    requires
        0 <= k <= items.len(),
        with_file(base, items.take(k)) is Err,
    ensures
        with_file(base, items) == with_file(base, items.take(k)),
    decreases items.len() - k,
{
    if k == items.len() {
        assert(items.take(k) =~= items);
    } else {
        assert(items.take(k + 1).drop_last() =~= items.take(k));
        lemma_fault_stays(base, items, k + 1);
    }
}

/// Adds the certificates that were read from a file. The first error ends it.
pub fn add_certificates(
    store: &mut RootCertStore,
    items: Vec<Result<Vec<u8>, String>>,
) -> (r: Result<(), String>)
    ensures
        (match r {
            Ok(_) => with_file(trusted(*old(store)), der_results(items@)) == Ok::<
                Seq<Anchor>,
                Seq<char>,
            >(trusted(*final(store))),
            Err(e) => with_file(trusted(*old(store)), der_results(items@)) == Err::<
                Seq<Anchor>,
                Seq<char>,
            >(e@),
        }),
{
    let ghost base = trusted(*store);
    let ghost all = der_results(items@);
    for item in it: items
        invariant
            it.seq() == items@,
            all == der_results(items@),
            base == trusted(*old(store)),
            with_file(base, all.take(it.index() as int)) == Ok::<Seq<Anchor>, Seq<char>>(
                trusted(*store),
            ),
    {
        let ghost k = it.index() as int;
        proof {
            assert(all.take(k + 1).drop_last() =~= all.take(k));
            assert(all.take(k + 1).last() == all[k]);
        }
        match item {
            Err(e) => {
                proof {
                    lemma_fault_stays(base, all, k + 1);
                }
                return Err(e);
            },
            Ok(der) => {
                if let Err(e) = add_root(store, der) {
                    proof {
                        lemma_fault_stays(base, all, k + 1);
                    }
                    return Err(e);
                }
            },
        }
    }
    proof {
        assert(all.take(all.len() as int) =~= all);
    }
    Ok(())
}

/// The roots that a connection trusts, made of those of the operating system and of a file
/// that the user named; `None` where the mode asks for no verification.
pub fn trust_roots(mode: SslMode, native: Vec<Vec<u8>>, file: Option<RootFile>) -> (r: Result<
    Option<RootCertStore>,
    DbError,
>)
    ensures
        (match r {
            Ok(None) => roots_for(mode, native.deep_view(), file) == Ok::<
                Option<Seq<Anchor>>,
                Seq<char>,
            >(None),
            Ok(Some(store)) => roots_for(mode, native.deep_view(), file) == Ok::<
                Option<Seq<Anchor>>,
                Seq<char>,
            >(Some(trusted(store))),
            Err(e) => e.deep_view() is Tls && roots_for(mode, native.deep_view(), file) == Err::<
                Option<Seq<Anchor>>,
                Seq<char>,
            >(e.deep_view()->Tls_0),
        }),
{
    if !mode.verifies() {
        return Ok(None);
    }
    let mut roots = no_roots();
    let ghost nv = native.deep_view();
    proof {
        assert(trusted(roots) =~= usable(nv.take(0)));
    }
    for der in it: native
        invariant
            it.seq() == native@,
            nv == native.deep_view(),
            trusted(roots) == usable(nv.take(it.index() as int)),
    {
        proof {
            let k = it.index() as int;
            assert(nv.take(k + 1).drop_last() =~= nv.take(k));
            assert(nv.take(k + 1).last() =~= der@);
        }
        let _ = add_root(&mut roots, der);
    }
    proof {
        assert(nv.take(nv.len() as int) =~= nv);
    }
    if let Some(f) = file {
        match f.contents {
            Err(e) => {
                return Err(
                    DbError::Tls(
                        "reading ".to_owned().concat(f.path.as_str()).concat(": ").concat(
                            e.as_str(),
                        ),
                    ),
                );
            },
            Ok(pem) => {
                let items = read_pem(pem.as_slice());
                if let Err(e) = add_certificates(&mut roots, items) {
                    return Err(DbError::Tls(e));
                }
            },
        }
    }
    Ok(Some(roots))
}

} // verus!

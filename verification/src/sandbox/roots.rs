//! The certificate authorities that the proxy trusts when it connects to
//! the outside: those of the host.

use crate::config::proxy::{first_failure, lemma_no_failure};
use crate::errors::{Error, ErrorView, Result};
use crate::values::views;
use vstd::prelude::*;
use vstd::string::*;

verus! {

/// The store of trusted certificate authorities of the TLS library.
#[verifier::external_type_specification]
#[verifier::external_body]
pub struct ExRootCertStore(rustls::RootCertStore);

/// What a store trusts of an authority, each as DER.
#[verifier::ext_equal]
pub struct AnchorView {
    /// Its subject.
    pub subject: Seq<u8>,
    /// Its public key, and what kind of key it is.
    pub key_info: Seq<u8>,
    /// The names that it is constrained to, if it is.
    pub name_constraints: Option<Seq<u8>>,
}

/// What a store holds: what it trusts of each authority, in the order in
/// which they were added.
pub uninterp spec fn trusted_anchors(store: rustls::RootCertStore) -> Seq<AnchorView>;

/// What is trusted of a certificate, given as DER; or why nothing is.
pub uninterp spec fn trust_anchor(der: Seq<u8>) -> std::result::Result<AnchorView, Seq<char>>;

/// Calls `rustls::RootCertStore::empty`, which holds nothing.
#[verifier::external_body]
fn empty_store() -> (r: rustls::RootCertStore)
    ensures
        trusted_anchors(r) == Seq::<AnchorView>::empty(),
{
    rustls::RootCertStore::empty()
}

/// Calls `rustls::RootCertStore::add`. Whether the certificate can be
/// trusted, and what of it, depends on the certificate alone, and
/// [`trust_anchor`] names it. One that can is appended to the store; one
/// that cannot leaves the store as it is, and the text of the error is the
/// result.
#[verifier::external_body]
fn add_root(store: &mut rustls::RootCertStore, der: &[u8]) -> (r: std::result::Result<(), String>)
    ensures
        match trust_anchor(der@) {
            Ok(anchor) => r is Ok && trusted_anchors(*final(store)) == trusted_anchors(
                *old(store),
            ).push(anchor),
            Err(e) => (r matches Err(f) && f@ == e) && trusted_anchors(*final(store))
                == trusted_anchors(*old(store)),
        },
{
    store.add(rustls::pki_types::CertificateDer::from(der)).map_err(|e| e.to_string())
}

/// What trusting each of the certificates comes to.
pub open spec fn trust_anchors(certs: Seq<Seq<u8>>) -> Seq<
    std::result::Result<AnchorView, Seq<char>>,
> {
    certs.map_values(|c: Seq<u8>| trust_anchor(c))
}

/// What a store that is to trust these certificates trusts, or why there
/// is no such store.
pub open spec fn roots_outcome(certs: Seq<Seq<u8>>) -> Result<Seq<AnchorView>, ErrorView> {
    if certs.len() == 0 {
        Err(ErrorView::NoRootCertificates)
    } else {
        match first_failure(trust_anchors(certs)) {
            Some(source) => Err(
                ErrorView::Other { context: "could not add a system CA certificate"@, source },
            ),
            None => Ok(
                trust_anchors(certs).map_values(
                    |a: std::result::Result<AnchorView, Seq<char>>| a->Ok_0,
                ),
            ),
        }
    }
}

/// A store that trusts all of the certificates, given as DER, in order. A host without any
/// is an error: trusting nothing but ourselves would go unnoticed until
/// every connection fails. So is a certificate that cannot be trusted; the
/// first one counts.
pub fn roots_from_certs(certs: &Vec<Vec<u8>>) -> (r: Result<rustls::RootCertStore>)
    ensures
        match r {
            Ok(store) => roots_outcome(views(certs@)) == Ok::<Seq<AnchorView>, ErrorView>(
                trusted_anchors(store),
            ),
            Err(e) => roots_outcome(views(certs@)) == Err::<Seq<AnchorView>, ErrorView>(e@),
        },
{
    if certs.len() == 0 {
        return Err(Error::no_root_certificates());
    }
    let ghost all = trust_anchors(views(certs@));
    let ghost anchors = all.map_values(
        |a: std::result::Result<AnchorView, Seq<char>>| a->Ok_0,
    );
    let mut store = empty_store();
    let mut i: usize = 0;
    proof {
        assert(all.skip(0) =~= all);
        assert(anchors.take(0) =~= Seq::<AnchorView>::empty());
    }
    while i < certs.len()
        invariant
            i <= certs@.len(),
            certs@.len() > 0,
            all == trust_anchors(views(certs@)),
            anchors == all.map_values(|a: std::result::Result<AnchorView, Seq<char>>| a->Ok_0),
            first_failure(all.skip(i as int)) == first_failure(all),
            trusted_anchors(store) == anchors.take(i as int),
        decreases certs.len() - i,
    {
        proof {
            assert(views(certs@)[i as int] == certs@[i as int]@);
            assert(all.skip(i as int)[0] == trust_anchor(certs@[i as int]@));
            assert(all.skip(i as int).skip(1) =~= all.skip(i + 1));
            assert(anchors.take(i + 1) =~= anchors.take(i as int).push(anchors[i as int]));
        }
        match add_root(&mut store, certs[i].as_slice()) {
            Ok(_) => {},
            Err(source) => {
                return Err(
                    Error::other("could not add a system CA certificate", source.as_str()),
                );
            },
        }
        i = i + 1;
    }
    assert(anchors.take(anchors.len() as int) =~= anchors);
    Ok(store)
}

/// All certificates are trusted or none is: there is a store exactly where
/// there are certificates and every one of them can be trusted, and it
/// trusts one authority for each, in order.
pub proof fn law_all_roots_are_trusted(certs: Seq<Seq<u8>>)
    ensures
        roots_outcome(certs) is Ok <==> certs.len() > 0 && forall|i: int|
            0 <= i < certs.len() ==> trust_anchor(#[trigger] certs[i]) is Ok,
        roots_outcome(certs) matches Ok(anchors) ==> {
            &&& anchors.len() == certs.len()
            &&& forall|i: int|
                0 <= i < certs.len() ==> trust_anchor(#[trigger] certs[i]) == Ok::<
                    AnchorView,
                    Seq<char>,
                >(anchors[i])
        },
        certs.len() == 0 ==> roots_outcome(certs) == Err::<Seq<AnchorView>, ErrorView>(
            ErrorView::NoRootCertificates,
        ),
{
    let all = trust_anchors(certs);
    lemma_no_failure(all);
    assert(forall|i: int| 0 <= i < certs.len() ==> #[trigger] all[i] == trust_anchor(certs[i]));
    if first_failure(all) is None {
        assert forall|i: int| 0 <= i < certs.len() implies trust_anchor(
            #[trigger] certs[i],
        ) is Ok by {
            assert(all[i] is Ok);
        }
    } else {
        let k = choose|k: int| 0 <= k < all.len() && (#[trigger] all[k]) is Err;
        assert(trust_anchor(certs[k]) is Err);
    }
}

} // verus!

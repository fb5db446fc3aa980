//! Choosing the certificate chain and private key from PEM files, read with
//! `rustls_pemfile`.
use vstd::prelude::*;
use crate::error::{AppError, AppErrorView};

verus! {

/// The DER certificates that `rustls_pemfile::certs` finds in a PEM text, or its error message.
pub uninterp spec fn pem_certs_of(pem: Seq<u8>) -> Result<Seq<Seq<u8>>, Seq<char>>;

/// The DER keys that `rustls_pemfile::ec_private_keys` finds in a PEM text, or its error message.
pub uninterp spec fn pem_ec_keys_of(pem: Seq<u8>) -> Result<Seq<Seq<u8>>, Seq<char>>;

/// The DER keys that `rustls_pemfile::rsa_private_keys` finds in a PEM text, or its error message.
pub uninterp spec fn pem_rsa_keys_of(pem: Seq<u8>) -> Result<Seq<Seq<u8>>, Seq<char>>;

/// The DER keys that `rustls_pemfile::pkcs8_private_keys` finds in a PEM text, or its error message.
pub uninterp spec fn pem_pkcs8_keys_of(pem: Seq<u8>) -> Result<Seq<Seq<u8>>, Seq<char>>;

pub open spec fn pem_items_view(r: Result<Vec<Vec<u8>>, String>) -> Result<Seq<Seq<u8>>, Seq<char>> {
    match r {
        Ok(v) => Ok(v.deep_view()),
        Err(e) => Err(e@),
    }
}

/// Reads the certificates of a PEM text with `rustls_pemfile::certs`, the
/// bytes serving as the reader; an I/O error becomes its message. The
/// certificates are only named.
#[verifier::external_body]
pub(crate) fn pem_certs(pem: &[u8]) -> (r: Result<Vec<Vec<u8>>, String>)
    ensures
        pem_items_view(r) == pem_certs_of(pem@),
{
    let mut reader: &[u8] = pem;
    match rustls_pemfile::certs(&mut reader) {
        Ok(items) => Ok(items),
        Err(e) => Err(e.to_string()),
    }
}

/// Reads the SEC1 EC private keys of a PEM text with
/// `rustls_pemfile::ec_private_keys`; an I/O error becomes its message. The
/// keys are only named.
#[verifier::external_body]
pub(crate) fn pem_ec_keys(pem: &[u8]) -> (r: Result<Vec<Vec<u8>>, String>)
    ensures
        pem_items_view(r) == pem_ec_keys_of(pem@),
{
    let mut reader: &[u8] = pem;
    match rustls_pemfile::ec_private_keys(&mut reader) {
        Ok(items) => Ok(items),
        Err(e) => Err(e.to_string()),
    }
}

/// Reads the RSA private keys of a PEM text with
/// `rustls_pemfile::rsa_private_keys`; an I/O error becomes its message. The
/// keys are only named.
#[verifier::external_body]
pub(crate) fn pem_rsa_keys(pem: &[u8]) -> (r: Result<Vec<Vec<u8>>, String>)
    ensures
        pem_items_view(r) == pem_rsa_keys_of(pem@),
{
    let mut reader: &[u8] = pem;
    match rustls_pemfile::rsa_private_keys(&mut reader) {
        Ok(items) => Ok(items),
        Err(e) => Err(e.to_string()),
    }
}

/// Reads the PKCS#8 private keys of a PEM text with
/// `rustls_pemfile::pkcs8_private_keys`; an I/O error becomes its message. The
/// keys are only named.
#[verifier::external_body]
pub(crate) fn pem_pkcs8_keys(pem: &[u8]) -> (r: Result<Vec<Vec<u8>>, String>)
    ensures
        pem_items_view(r) == pem_pkcs8_keys_of(pem@),
{
    let mut reader: &[u8] = pem;
    match rustls_pemfile::pkcs8_private_keys(&mut reader) {
        Ok(items) => Ok(items),
        Err(e) => Err(e.to_string()),
    }
}

/// The error when the key file holds no key of a supported kind.
pub open spec fn no_key_error() -> AppErrorView {
    AppErrorView::TlsConfig("无法读取私钥，支持的格式：ECC、RSA 或 PKCS8"@)
}

/// The key chosen from the keys of each kind, read in the order EC, RSA,
/// PKCS#8: the first key of the first kind that has any. A read error ends
/// the choice as an I/O error.
pub open spec fn chosen_key(
    ec: Result<Seq<Seq<u8>>, Seq<char>>,
    rsa: Result<Seq<Seq<u8>>, Seq<char>>,
    pkcs8: Result<Seq<Seq<u8>>, Seq<char>>,
) -> Result<Seq<u8>, AppErrorView> {
    match ec {
        Err(e) => Err(AppErrorView::Io(e)),
        Ok(ec) => if ec.len() > 0 {
            Ok(ec[0])
        } else {
            match rsa {
                Err(e) => Err(AppErrorView::Io(e)),
                Ok(rsa) => if rsa.len() > 0 {
                    Ok(rsa[0])
                } else {
                    match pkcs8 {
                        Err(e) => Err(AppErrorView::Io(e)),
                        Ok(p) => if p.len() > 0 {
                            Ok(p[0])
                        } else {
                            Err(no_key_error())
                        },
                    }
                },
            }
        },
    }
}

/// The certificate chain and private key for the TLS listener, from the
/// contents of the certificate and key files. The certificates are read
/// first; a read error of any parser is an I/O error.
pub open spec fn tls_material_result(cert_pem: Seq<u8>, key_pem: Seq<u8>) -> Result<
    (Seq<Seq<u8>>, Seq<u8>),
    AppErrorView,
> {
    match pem_certs_of(cert_pem) {
        Err(e) => Err(AppErrorView::Io(e)),
        Ok(certs) => match chosen_key(
            pem_ec_keys_of(key_pem),
            pem_rsa_keys_of(key_pem),
            pem_pkcs8_keys_of(key_pem),
        ) {
            Err(e) => Err(e),
            Ok(key) => Ok((certs, key)),
        },
    }
}

/// Picks the key as [`chosen_key`] says, from the read results of each kind.
pub fn choose_private_key(
    ec: Result<Vec<Vec<u8>>, String>,
    rsa: Result<Vec<Vec<u8>>, String>,
    pkcs8: Result<Vec<Vec<u8>>, String>,
) -> (r: Result<Vec<u8>, AppError>)
    ensures
        match r {
            Ok(k) => chosen_key(pem_items_view(ec), pem_items_view(rsa), pem_items_view(pkcs8))
                == Ok::<Seq<u8>, AppErrorView>(k@),
            Err(e) => chosen_key(pem_items_view(ec), pem_items_view(rsa), pem_items_view(pkcs8))
                == Err::<Seq<u8>, AppErrorView>(e@),
        },
{
    match ec {
        Err(e) => return Err(AppError::Io(e)),
        Ok(mut keys) => {
            if keys.len() > 0 {
                let ghost all = keys.deep_view();
                let k = keys.swap_remove(0);
                assert(k@ == all[0]);
                return Ok(k);
            }
        },
    }
    match rsa {
        Err(e) => return Err(AppError::Io(e)),
        Ok(mut keys) => {
            if keys.len() > 0 {
                let ghost all = keys.deep_view();
                let k = keys.swap_remove(0);
                assert(k@ == all[0]);
                return Ok(k);
            }
        },
    }
    match pkcs8 {
        Err(e) => Err(AppError::Io(e)),
        Ok(mut keys) => {
            if keys.len() > 0 {
                let ghost all = keys.deep_view();
                let k = keys.swap_remove(0);
                assert(k@ == all[0]);
                Ok(k)
            } else {
                Err(AppError::TlsConfig(String::from_str("无法读取私钥，支持的格式：ECC、RSA 或 PKCS8")))
            }
        },
    }
}

/// The certificate chain and private key from the files' contents (see
/// [`tls_material_result`]). A kind of key is read only when the kinds
/// before it gave none.
pub fn tls_key_material(cert_pem: &[u8], key_pem: &[u8]) -> (r: Result<
    (Vec<Vec<u8>>, Vec<u8>),
    AppError,
>)
    ensures
        match r {
            Ok((certs, key)) => tls_material_result(cert_pem@, key_pem@) == Ok::<
                (Seq<Seq<u8>>, Seq<u8>),
                AppErrorView,
            >((certs.deep_view(), key@)),
            Err(e) => tls_material_result(cert_pem@, key_pem@) == Err::<
                (Seq<Seq<u8>>, Seq<u8>),
                AppErrorView,
            >(e@),
        },
{
    let certs = match pem_certs(cert_pem) {
        Ok(c) => c,
        Err(e) => return Err(AppError::Io(e)),
    };
    let ec = pem_ec_keys(key_pem);
    let has_ec = match &ec {
        Ok(keys) => keys.len() > 0,
        Err(_) => true,
    };
    if has_ec {
        let key = choose_private_key(ec, Ok(Vec::new()), Ok(Vec::new()))?;
        return Ok((certs, key));
    }
    let rsa = pem_rsa_keys(key_pem);
    let has_rsa = match &rsa {
        Ok(keys) => keys.len() > 0,
        Err(_) => true,
    };
    if has_rsa {
        let key = choose_private_key(ec, rsa, Ok(Vec::new()))?;
        return Ok((certs, key));
    }
    let pkcs8 = pem_pkcs8_keys(key_pem);
    let key = choose_private_key(ec, rsa, pkcs8)?;
    Ok((certs, key))
}

} // verus!

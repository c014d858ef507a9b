//! TLS configuration for the service mesh, by `rustls`.

use std::sync::Arc;

use vstd::prelude::*;
use vstd::string::*;

use crate::mesh::error::MeshError;
use crate::text::{owned, text_views};

verus! {

/// The server configuration of `rustls`.
#[verifier::external_type_specification]
#[verifier::external_body]
pub struct ExServerConfig(rustls::ServerConfig);

/// The client configuration of `rustls`.
#[verifier::external_type_specification]
#[verifier::external_body]
pub struct ExClientConfig(rustls::ClientConfig);

/// The set of trusted certificates of `rustls`.
#[verifier::external_type_specification]
#[verifier::external_body]
pub struct ExRootCertStore(rustls::RootCertStore);

/// The certificate chain and private key that a server presents.
pub uninterp spec fn server_identity(config: rustls::ServerConfig) -> (Seq<Seq<u8>>, Seq<u8>);

/// The certificates that a store trusts, in the order in which they were added.
pub uninterp spec fn trusted(store: rustls::RootCertStore) -> Seq<Seq<u8>>;

/// The certificates that a client trusts.
pub uninterp spec fn client_roots(config: rustls::ClientConfig) -> Seq<Seq<u8>>;

/// The complaint of `rustls` about a certificate that is to be trusted, if it has
/// one.
pub uninterp spec fn root_refusal(certificate: Seq<u8>) -> Option<Seq<char>>;

/// `CryptoProvider::install_default` of `rustls` with the `ring` provider. It takes
/// effect at most once per process; a provider that was installed before stays.
#[verifier::external_body]
fn install_provider() {
    let _ = rustls::crypto::ring::default_provider().install_default();
}

/// `ServerConfig::builder`, without client authentication, `with_single_cert`: a
/// configuration presents the chain and key that it was made with. Which chains
/// and keys are refused, and with what message, depends on the installed
/// cryptography and is not stated.
#[verifier::external_body]
fn server_config(chain: &Vec<Vec<u8>>, key: &Vec<u8>) -> (r: Result<rustls::ServerConfig, String>)
    ensures
        match r {
            Ok(config) => server_identity(config) == (chain.deep_view(), key@),
            Err(_) => true,
        },
{
    let certs = chain.iter().map(|c| rustls::pki_types::CertificateDer::from(c.clone())).collect();
    let key = rustls::pki_types::PrivatePkcs8KeyDer::from(key.clone());
    rustls::ServerConfig::builder()
        .with_no_client_auth()
        .with_single_cert(certs, rustls::pki_types::PrivateKeyDer::Pkcs8(key))
        .map_err(|e| e.to_string())
}

/// `RootCertStore::empty`: it trusts no certificate.
#[verifier::external_body]
fn empty_roots() -> (store: rustls::RootCertStore)
    ensures
        trusted(store) == Seq::<Seq<u8>>::empty(),
{
    rustls::RootCertStore::empty()
}

/// `RootCertStore::add`: the certificate is trusted beside the others, unless it is
/// refused, which depends on the certificate alone; then nothing changes.
#[verifier::external_body]
fn add_root(store: &mut rustls::RootCertStore, certificate: &Vec<u8>) -> (r: Result<(), String>)
    ensures
        match r {
            Ok(()) => root_refusal(certificate@) is None && trusted(*final(store)) == trusted(
                *old(store),
            ).push(certificate@),
            Err(e) => root_refusal(certificate@) == Some(e@) && trusted(*final(store)) == trusted(
                *old(store),
            ),
        },
{
    store.add(rustls::pki_types::CertificateDer::from(certificate.clone())).map_err(|e| e.to_string())
}

/// `ClientConfig::builder` with root certificates, without client authentication:
/// the client trusts what the store trusts.
#[verifier::external_body]
fn client_config(store: rustls::RootCertStore) -> (config: rustls::ClientConfig)
    ensures
        client_roots(config) == trusted(store),
{
    rustls::ClientConfig::builder().with_root_certificates(store).with_no_client_auth()
}

/// `rcgen::generate_simple_self_signed`: a fresh key pair and a certificate for it,
/// as DER. The outcome is random; nothing is claimed of it.
#[verifier::external_body]
fn generate_self_signed(names: Vec<String>) -> (r: Result<(Vec<u8>, Vec<u8>), String>) {
    match rcgen::generate_simple_self_signed(names) {
        Ok(pair) => Ok((pair.cert.der().to_vec(), pair.key_pair.serialize_der())),
        Err(e) => Err(e.to_string()),
    }
}

/// TLS configuration for the service mesh.
pub struct TlsConfig {
    server_config: Arc<rustls::ServerConfig>,
    client_config: Arc<rustls::ClientConfig>,
}

impl Clone for TlsConfig {
    fn clone(&self) -> (r: Self)
        ensures
            r == *self,
    {
        TlsConfig {
            server_config: self.server_config.clone(),
            client_config: self.client_config.clone(),
        }
    }
}

/// The names that a certificate for testing is made out to.
pub fn test_names() -> (names: Vec<String>)
    ensures
        text_views(names@) == seq!["localhost"@, "127.0.0.1"@],
{
    let names: Vec<String> = vec![owned("localhost"), owned("127.0.0.1")];
    assert(text_views(names@) =~= seq!["localhost"@, "127.0.0.1"@]);
    names
}

/// A certificate of a chain that cannot be trusted.
pub open spec fn refused_at(chain: Seq<Seq<u8>>, i: int) -> bool {
    &&& 0 <= i < chain.len()
    &&& root_refusal(chain[i]) is Some
    &&& forall|k: int| 0 <= k < i ==> root_refusal(#[trigger] chain[k]) is None
}

/// A message says that the server configuration was refused, or which certificate
/// of a chain was the first that cannot be trusted.
pub open spec fn explains(message: Seq<char>, chain: Seq<Seq<u8>>) -> bool {
    ||| exists|detail: Seq<char>| message == #[trigger] ("server config: "@ + detail)
    ||| exists|i: int| #[trigger]
        refused_at(chain, i) && message == "root store: "@ + root_refusal(chain[i])->Some_0
}

impl TlsConfig {
    /// The server's side.
    pub closed spec fn server(&self) -> rustls::ServerConfig {
        *self.server_config
    }

    /// The client's side.
    pub closed spec fn client(&self) -> rustls::ClientConfig {
        *self.client_config
    }

    /// Create a configuration from a DER-encoded certificate chain, the server's
    /// certificate first, and a DER-encoded PKCS#8 private key. The server presents
    /// the chain and the key, and the client trusts the certificates of the chain.
    /// It fails if the server configuration is refused, or else on the first
    /// certificate that cannot be trusted.
    pub fn new(cert_chain: &Vec<Vec<u8>>, private_key: &Vec<u8>) -> (r: Result<Self, MeshError>)
        ensures
            match r {
                Ok(config) => {
                    &&& server_identity(config.server()) == (cert_chain.deep_view(), private_key@)
                    &&& client_roots(config.client()) == cert_chain.deep_view()
                    &&& forall|i: int|
                        0 <= i < cert_chain@.len() ==> root_refusal(
                            #[trigger] cert_chain.deep_view()[i],
                        ) is None
                },
                Err(e) => e is TlsError && explains(e->TlsError_0@, cert_chain.deep_view()),
            },
    {
        install_provider();
        TlsConfig::server_outcome(server_config(cert_chain, private_key), cert_chain)
    }

    /// What follows from building the server's side: a refusal is passed on with the
    /// words of `rustls`, and a server configuration is completed by
    /// [`TlsConfig::with_server`].
    pub fn server_outcome(
        outcome: Result<rustls::ServerConfig, String>,
        cert_chain: &Vec<Vec<u8>>,
    ) -> (r: Result<Self, MeshError>)
        ensures
            match outcome {
                Err(e) => r is Err && r->Err_0 is TlsError && r->Err_0->TlsError_0@
                    == "server config: "@ + e@,
                Ok(server) => match r {
                    Ok(config) => {
                        &&& config.server() == server
                        &&& client_roots(config.client()) == cert_chain.deep_view()
                        &&& forall|i: int|
                            0 <= i < cert_chain@.len() ==> root_refusal(
                                #[trigger] cert_chain.deep_view()[i],
                            ) is None
                    },
                    Err(e) => e is TlsError && exists|i: int| #[trigger]
                        refused_at(cert_chain.deep_view(), i) && e->TlsError_0@ == "root store: "@
                            + root_refusal(cert_chain.deep_view()[i])->Some_0,
                },
            },
    {
        match outcome {
            Ok(server) => TlsConfig::with_server(server, cert_chain),
            Err(e) => {
                let mut s = owned("server config: ");
                s.append(e.as_str());
                Err(MeshError::TlsError(s))
            },
        }
    }

    /// Complete a configuration by the client that trusts a chain, or fail on the
    /// first certificate of it that cannot be trusted.
    pub fn with_server(server: rustls::ServerConfig, cert_chain: &Vec<Vec<u8>>) -> (r: Result<
        Self,
        MeshError,
    >)
        ensures
            match r {
                Ok(config) => {
                    &&& config.server() == server
                    &&& client_roots(config.client()) == cert_chain.deep_view()
                    &&& forall|i: int|
                        0 <= i < cert_chain@.len() ==> root_refusal(
                            #[trigger] cert_chain.deep_view()[i],
                        ) is None
                },
                Err(e) => e is TlsError && exists|i: int| #[trigger]
                    refused_at(cert_chain.deep_view(), i) && e->TlsError_0@ == "root store: "@
                        + root_refusal(cert_chain.deep_view()[i])->Some_0,
            },
    {
        let ghost chain = cert_chain.deep_view();
        let mut store = empty_roots();
        let mut i: usize = 0;
        assert(chain.take(0) =~= Seq::empty());
        while i < cert_chain.len()
            invariant
                i <= cert_chain@.len(),
                chain == cert_chain.deep_view(),
                chain.len() == cert_chain@.len(),
                trusted(store) == chain.take(i as int),
                forall|k: int| 0 <= k < i ==> root_refusal(#[trigger] chain[k]) is None,
            decreases cert_chain@.len() - i,
        {
            assert(chain[i as int] == cert_chain@[i as int]@);
            match add_root(&mut store, &cert_chain[i]) {
                Ok(()) => {},
                Err(e) => {
                    let mut s = owned("root store: ");
                    s.append(e.as_str());
                    assert(refused_at(chain, i as int));
                    return Err(MeshError::TlsError(s));
                },
            }
            assert(chain.take(i as int).push(chain[i as int]) =~= chain.take(i + 1));
            i += 1;
        }
        assert(chain.take(i as int) =~= chain);
        let client = client_config(store);
        Ok(TlsConfig { server_config: Arc::new(server), client_config: Arc::new(client) })
    }

    /// Generate an ephemeral self-signed configuration for testing, for the names of
    /// [`test_names`]. The client trusts exactly what the server presents. What
    /// follows from a generated certificate and key, or from a failure to generate
    /// them, is up to [`TlsConfig::self_signed`].
    pub fn self_signed_for_testing() -> (r: Result<Self, MeshError>)
        ensures
            match r {
                Ok(config) => client_roots(config.client()) == server_identity(config.server()).0
                    && client_roots(config.client()).len() == 1,
                Err(e) => e is CertificateError || (e is TlsError && exists|certificate: Seq<u8>|
                    explains(e->TlsError_0@, #[trigger] seq![certificate])),
            },
    {
        let names = test_names();
        TlsConfig::self_signed(generate_self_signed(names))
    }

    /// The configuration of a generated certificate, as DER, and its private key: that
    /// of the chain of the one certificate. A failure to generate them is passed on.
    pub fn self_signed(generated: Result<(Vec<u8>, Vec<u8>), String>) -> (r: Result<
        Self,
        MeshError,
    >)
        ensures
            match generated {
                Ok((certificate, key)) => match r {
                    Ok(config) => {
                        &&& server_identity(config.server()) == (seq![certificate@], key@)
                        &&& client_roots(config.client()) == seq![certificate@]
                        &&& root_refusal(certificate@) is None
                    },
                    Err(e) => e is TlsError && explains(e->TlsError_0@, seq![certificate@]),
                },
                Err(message) => r == Err::<Self, MeshError>(MeshError::CertificateError(message)),
            },
    {
        match generated {
            Ok((certificate, key)) => {
                let ghost one = seq![certificate@];
                let chain: Vec<Vec<u8>> = vec![certificate];
                assert(chain.deep_view()[0] =~= one[0]);
                assert(chain.deep_view() =~= one);
                let r = TlsConfig::new(&chain, &key);
                assert(r is Ok ==> root_refusal(chain.deep_view()[0]) is None);
                r
            },
            Err(e) => Err(MeshError::CertificateError(e)),
        }
    }

    /// Return the server TLS config.
    pub fn server_config(&self) -> (c: Arc<rustls::ServerConfig>)
        ensures
            *c == self.server(),
    {
        self.server_config.clone()
    }

    /// Return the client TLS config.
    pub fn client_config(&self) -> (c: Arc<rustls::ClientConfig>)
        ensures
            *c == self.client(),
    {
        self.client_config.clone()
    }
}

} // verus!

//! How the server is set up, and where its clients find it.
use vstd::prelude::*;

verus! {

/// The address on which the server listens and to which a client connects.
pub const SERVER_ADDRESS: [u8; 4] = [127, 0, 0, 1];

/// The port on which the server listens and to which a client connects.
pub const SERVER_PORT: u16 = 8080;

/// The port of a client: any that is free.
pub const CLIENT_PORT: u16 = 0;

/// The name by which a client asks for the server, and to which the
/// certificate of the server is issued.
pub const SERVER_NAME: &'static str = "localhost";

/// How many unidirectional streams a client may have open: all messages
/// travel on the one bidirectional stream of the connection.
pub const MAX_UNI_STREAMS: u8 = 0;

/// `rcgen`'s error, carried through unread.
#[verifier::external_type_specification]
#[verifier::external_body]
pub struct ExRcgenError(rcgen::Error);

/// What the server presents to its clients, and what it grants them.
#[derive(Debug)]
pub struct ServerSettings {
    /// The certificate, in DER.
    pub certificate: Vec<u8>,
    /// The private key of the certificate, in the DER form of PKCS #8.
    pub private_key: Vec<u8>,
    /// How many unidirectional streams a client may have open.
    pub max_concurrent_uni_streams: u8,
}

/// The texts of a sequence of strings.
pub open spec fn texts(strings: Seq<String>) -> Seq<Seq<char>> {
    strings.map_values(|string: String| string@)
}

/// A text that is made up of lower-case letters.
pub open spec fn is_lower_case(text: Seq<char>) -> bool {
    forall|i: int| 0 <= i < text.len() ==> 'a' <= #[trigger] text[i] <= 'z'
}

/// The DNS names to which a certificate in DER is issued, in the order in
/// which its subject-alternative-name extension gives them.
pub uninterp spec fn certified_names(certificate: Seq<u8>) -> Seq<Seq<char>>;

/// A certificate in DER holds the public key of a private key in the DER form
/// of PKCS #8, and is signed with that private key.
pub uninterp spec fn certifies_key(certificate: Seq<u8>, private_key: Seq<u8>) -> bool;

/// Calls `rcgen::generate_simple_self_signed` and gives the certificate and
/// its private key in DER. Claimed of it: names of lower-case letters, none of
/// which can be an IP address, are the names to which the certificate is
/// issued; the certificate is that of the private key, and signed with it. The
/// key is new at every call, so nothing is claimed of the other content of the
/// two.
#[verifier::external_body]
fn generate_certificate(names: Vec<String>) -> (generated: Result<
    (Vec<u8>, Vec<u8>),
    rcgen::Error,
>)
    ensures
        generated is Ok && (forall|i: int|
            0 <= i < names@.len() ==> is_lower_case((#[trigger] names@[i])@)) ==> certified_names(
            generated->Ok_0.0@,
        ) == texts(names@),
        generated is Ok ==> certifies_key(generated->Ok_0.0@, generated->Ok_0.1@),
{
    match rcgen::generate_simple_self_signed(names) {
        Ok(issued) => Ok((issued.cert.der().to_vec(), issued.signing_key.serialize_der())),
        Err(error) => Err(error),
    }
}

/// The names to which the certificate of the server is issued.
pub fn server_names() -> (names: Vec<String>)
    ensures
        texts(names@) == seq![SERVER_NAME@],
{
    let mut names: Vec<String> = Vec::new();
    names.push(SERVER_NAME.to_string());
    assert(texts(names@) =~= seq![SERVER_NAME@]);
    names
}

/// The settings of a server with a given certificate and private key.
pub fn server_settings(certificate: Vec<u8>, private_key: Vec<u8>) -> (settings: ServerSettings)
    ensures
        settings.certificate == certificate,
        settings.private_key == private_key,
        settings.max_concurrent_uni_streams == MAX_UNI_STREAMS,
{
    ServerSettings { certificate, private_key, max_concurrent_uni_streams: MAX_UNI_STREAMS }
}

/// The settings of a server, given what came of the attempt to make its
/// certificate and private key.
pub open spec fn settings_of(
    generated: Result<(Vec<u8>, Vec<u8>), rcgen::Error>,
) -> Result<ServerSettings, rcgen::Error> {
    match generated {
        Ok((certificate, private_key)) => Ok(
            ServerSettings {
                certificate,
                private_key,
                max_concurrent_uni_streams: MAX_UNI_STREAMS,
            },
        ),
        Err(error) => Err(error),
    }
}

/// The settings of a server, given what came of the attempt to make its
/// certificate and private key: those of a server with the two, or the error.
pub fn settings_from(generated: Result<(Vec<u8>, Vec<u8>), rcgen::Error>) -> (settings: Result<
    ServerSettings,
    rcgen::Error,
>)
    ensures
        match generated {
            Ok((certificate, private_key)) => settings == Ok::<ServerSettings, rcgen::Error>(
                ServerSettings {
                    certificate,
                    private_key,
                    max_concurrent_uni_streams: MAX_UNI_STREAMS,
                },
            ),
            Err(error) => settings == Err::<ServerSettings, rcgen::Error>(error),
        },
        settings == settings_of(generated),
{
    match generated {
        Ok((certificate, private_key)) => Ok(server_settings(certificate, private_key)),
        Err(error) => Err(error),
    }
}

/// What came of an attempt to make a certificate for the names, and its private
/// key.
pub closed spec fn generated_for(
    names: Seq<Seq<char>>,
    generated: Result<(Vec<u8>, Vec<u8>), rcgen::Error>,
) -> bool {
    exists|asked: Vec<String>|
        texts(asked@) == names && #[trigger] call_ensures(
            generate_certificate,
            (asked,),
            generated,
        )
}

/// Makes the settings of a server, with a new certificate. Fails where no
/// certificate can be made, which is up to the source of random numbers.
pub fn configure_server() -> (settings: Result<ServerSettings, rcgen::Error>)
    ensures
        exists|generated: Result<(Vec<u8>, Vec<u8>), rcgen::Error>|
            settings == settings_of(generated) && #[trigger] generated_for(
                seq![SERVER_NAME@],
                generated,
            ),
        settings is Ok ==> {
            &&& certified_names(settings->Ok_0.certificate@) == seq![SERVER_NAME@]
            &&& certifies_key(settings->Ok_0.certificate@, settings->Ok_0.private_key@)
            &&& settings->Ok_0.max_concurrent_uni_streams == MAX_UNI_STREAMS
        },
{
    let names = server_names();
    proof {
        reveal_strlit("localhost");
        assert(names@.len() == texts(names@).len());
        assert(names@[0]@ == texts(names@)[0]);
    }
    let generated = generate_certificate(names);
    assert(generated_for(seq![SERVER_NAME@], generated));
    settings_from(generated)
}

/// What came of the attempt to make a certificate is what the settings hold: the
/// certificate, its key, and no unidirectional streams; or the error.
pub proof fn law_settings_hold_what_was_made(
    generated: Result<(Vec<u8>, Vec<u8>), rcgen::Error>,
)
    ensures
        match generated {
            Ok((certificate, private_key)) => settings_of(generated) matches Ok(settings)
                && settings.certificate == certificate && settings.private_key == private_key
                && settings.max_concurrent_uni_streams == 0,
            Err(error) => settings_of(generated) == Err::<ServerSettings, rcgen::Error>(error),
        },
{
}

/// The texts of strings are their texts, one by one.
pub proof fn law_texts(strings: Seq<String>, i: int)
    ensures
        texts(strings).len() == strings.len(),
        0 <= i < strings.len() ==> texts(strings)[i] == strings[i]@,
{
}

/// What came of an attempt to make a certificate for names is what
/// `generate_certificate` came back with for them.
proof fn law_generated_for_names(
    names: Seq<Seq<char>>,
    generated: Result<(Vec<u8>, Vec<u8>), rcgen::Error>,
)
    requires
        generated_for(names, generated),
    ensures
        exists|asked: Vec<String>|
            texts(asked@) == names && #[trigger] call_ensures(
                generate_certificate,
                (asked,),
                generated,
            ),
{
}

} // verus!

use vstd::prelude::*;

verus! {

/// The media type that the extension table gives a file name, if any.
pub uninterp spec fn extension_type(name: Seq<char>) -> Option<Seq<char>>;

/// The media type that content sniffing guesses for some bytes.
pub uninterp spec fn sniffed_type(content: Seq<u8>) -> Seq<char>;

/// The canonical text of a media type string, if it parses as one.
pub uninterp spec fn parsed_type(text: Seq<char>) -> Option<Seq<char>>;

/// Relies on mime_guess::from_path and MimeGuess::first: the first media
/// type registered for the name's extension, as text.
#[verifier::external_body]
fn guess_by_extension(name: &str) -> (r: Option<String>)
    ensures
        r is Some == extension_type(name@) is Some,
        r is Some ==> r->Some_0@ == extension_type(name@)->Some_0,
{
    mime_guess::from_path(name).first().map(|m| m.to_string())
}

/// Relies on tree_magic::from_u8 with its built-in rule set (no rule file is
/// read from disk): the media type guessed from the bytes alone. Every byte
/// string matches `all/allfiles`, so a guess always comes back.
#[verifier::external_body]
fn sniff(content: &[u8]) -> (r: String)
    ensures
        r@ == sniffed_type(content@),
{
    tree_magic::from_u8(content).to_string()
}

/// Relies on mime::Mime's `FromStr` and `Display`: parses a media type and
/// renders it back as text; a malformed one yields `None`.
#[verifier::external_body]
fn parse_media_type(text: &str) -> (r: Option<String>)
    ensures
        r is Some == parsed_type(text@) is Some,
        r is Some ==> r->Some_0@ == parsed_type(text@)->Some_0,
{
    <mime::Mime as std::str::FromStr>::from_str(text).ok().map(|m| m.to_string())
}

/// The generic binary type, the last fallback.
pub open spec fn octet_stream() -> Seq<char> {
    seq!['a', 'p', 'p', 'l', 'i', 'c', 'a', 't', 'i', 'o', 'n', '/', 'o', 'c', 't', 'e', 't', '-', 's', 't', 'r', 'e', 'a', 'm']
}

/// The media type chosen from an extension guess and a parsed sniff result.
pub open spec fn select_spec(by_extension: Option<Seq<char>>, sniffed: Option<Seq<char>>) -> Seq<char> {
    match by_extension {
        Some(t) => t,
        None => match sniffed {
            Some(t) => t,
            None => octet_stream(),
        },
    }
}

/// The media type of a member: the extension guess when there is one,
/// otherwise the sniffed type, otherwise the generic binary type.
pub open spec fn media_type_spec(name: Seq<char>, content: Seq<u8>) -> Seq<char> {
    match extension_type(name) {
        Some(t) => t,
        None => select_spec(None, parsed_type(sniffed_type(content))),
    }
}

pub open spec fn option_string_view(o: Option<String>) -> Option<Seq<char>> {
    match o {
        Some(s) => Some(s@),
        None => None,
    }
}

/// Chooses a media type: the extension guess wins whenever there is one; the
/// sniffed type is the fallback; with neither it is
/// `application/octet-stream`.
pub fn select_media_type(by_extension: Option<String>, sniffed: Option<String>) -> (r: String)
    ensures
        r@ == select_spec(option_string_view(by_extension), option_string_view(sniffed)),
{
    match by_extension {
        Some(t) => t,
        None => match sniffed {
            Some(t) => t,
            None => {
                proof {
                    reveal_strlit("application/octet-stream");
                }
                let r = String::from_str("application/octet-stream");
                assert(r@ =~= octet_stream());
                r
            },
        },
    }
}

/// The media type of a member, from its name's extension, or, only where
/// that gives none, from its content. Never fails.
pub fn classify(name: &str, content: &[u8]) -> (r: String)
    ensures
        r@ == media_type_spec(name@, content@),
{
    let guess = guess_by_extension(name);
    let sniffed = if guess.is_some() {
        None
    } else {
        let text = sniff(content);
        parse_media_type(text.as_str())
    };
    select_media_type(guess, sniffed)
}

} // verus!

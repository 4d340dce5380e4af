//! One-off protocol messages: the frames the codec builds and reads.
//!
//! Each builder returns the encoded message in a buffer, ready to be written
//! to the connection in one piece.

use bytes::BytesMut;
use vstd::hash_map::StringHashMap;
use vstd::prelude::*;
use vstd::string::StringSliceAdditionalSpecFns;
use vstd::utf8::{encode_utf8, is_ascii_chars};

use crate::buffer::{
    as_slice, contents, len, put_i32, put_slice, put_u8, split_to, with_capacity,
};
use crate::challenge::{challenge, md5_challenge};
use crate::errors::Error;
use crate::params::{
    lemma_latin1_of_ascii, lemma_missing_user_rejected, lemma_tokens_of_terminated,
    lemma_tokens_of_unterminated, nul_free, pair_up, read_tokens, startup_params, texts_of,
    token_texts, tokens, user_key,
};
use crate::wire::{
    be_i32, cstr, first_frame, frame_length, lemma_first_frame_shape, read_i32,
    starts_with_frame, tagged_frame,
};

verus! {

/// Protocol version 3.0, as the startup request carries it.
pub const PROTOCOL_VERSION: i32 = 196608;

/// The frame that tells a client its authentication succeeded: tag `R`
/// and the code 0.
pub open spec fn auth_ok_message() -> Seq<u8> {
    tagged_frame('R' as u8, be_i32(0))
}

/// The frame that carries the process id and the secret key a client needs
/// to cancel a query: tag `K` and the two integers.
pub open spec fn backend_key_data_message(backend_id: i32, secret_key: i32) -> Seq<u8> {
    tagged_frame('K' as u8, be_i32(backend_id) + be_i32(secret_key))
}

/// The frame that tells a client the connection is idle and ready for the
/// next query: tag `Z` and the status `I`.
pub open spec fn ready_for_query_message() -> Seq<u8> {
    tagged_frame('Z' as u8, seq!['I' as u8])
}

/// The parameter list of a startup request for `user` and `database`: the
/// two names with their values, each null-terminated, and a closing null.
pub open spec fn startup_parameters(user: Seq<u8>, database: Seq<u8>) -> Seq<u8> {
    cstr("user".spec_bytes()) + cstr(user) + cstr("database".spec_bytes()) + cstr(database)
        + seq![0u8]
}

/// The startup request.  It carries no tag: the length field, which counts
/// the whole message, then the protocol version and the parameter list.
pub open spec fn startup_message(user: Seq<u8>, database: Seq<u8>) -> Seq<u8> {
    let body = be_i32(PROTOCOL_VERSION) + startup_parameters(user, database);
    be_i32((body.len() + 4) as i32) + body
}

/// The frame that answers an MD5 password request: tag `p` and the
/// null-terminated challenge string.
pub open spec fn password_message(challenge: Seq<u8>) -> Seq<u8> {
    tagged_frame('p' as u8, cstr(challenge))
}

/// The answer to a custom command: a command-complete frame, tag `C`, with
/// the null-terminated completion text, and a ready-for-query frame right
/// behind it.
pub open spec fn command_complete_message(text: Seq<u8>) -> Seq<u8> {
    tagged_frame('C' as u8, cstr(text)) + ready_for_query_message()
}

/// The fields of the shutdown notice: severity `FATAL` twice (tags `S` and
/// `V`), the SQLSTATE code `57P01` (tag `C`) and the message (tag `M`).
/// The first three are null-terminated; the message is not.
pub open spec fn shutdown_fields() -> Seq<u8> {
    seq!['S' as u8] + cstr("FATAL".spec_bytes()) + seq!['V' as u8] + cstr("FATAL".spec_bytes())
        + seq!['C' as u8] + cstr("57P01".spec_bytes()) + seq!['M' as u8]
        + "terminating connection due to administrator command".spec_bytes()
}

/// The notice that the server is shutting down: tag `N` and the fields.
pub open spec fn shutdown_message() -> Seq<u8> {
    tagged_frame('N' as u8, shutdown_fields())
}

/// Appends `text` and its null terminator to `buf`.
fn put_cstr(buf: &mut BytesMut, text: &[u8])
    requires
        contents(*old(buf)).len() + text@.len() + 1 <= isize::MAX,
    ensures
        contents(*final(buf)) == contents(*old(buf)) + cstr(text@),
{
    put_slice(buf, text);
    put_u8(buf, 0);
}

/// Builds the authentication-OK frame.
pub fn auth_ok() -> (frame: BytesMut)
    ensures
        contents(frame) == auth_ok_message(),
        contents(frame) == seq![0x52u8, 0, 0, 0, 8, 0, 0, 0, 0],
{
    let mut frame = with_capacity(9);
    put_u8(&mut frame, 'R' as u8);
    put_i32(&mut frame, 8);
    put_i32(&mut frame, 0);
    frame
}

/// Builds the backend-key-data frame for the given process id and secret
/// key.
pub fn backend_key_data(backend_id: i32, secret_key: i32) -> (frame: BytesMut)
    ensures
        contents(frame) == backend_key_data_message(backend_id, secret_key),
        contents(frame) == seq!['K' as u8, 0, 0, 0, 12] + be_i32(backend_id) + be_i32(secret_key),
{
    let mut frame = with_capacity(13);
    put_u8(&mut frame, 'K' as u8);
    put_i32(&mut frame, 12);
    put_i32(&mut frame, backend_id);
    put_i32(&mut frame, secret_key);
    frame
}

/// Builds the ready-for-query frame.  The status is always idle.
pub fn ready_for_query() -> (frame: BytesMut)
    ensures
        contents(frame) == ready_for_query_message(),
        contents(frame) == seq![0x5au8, 0, 0, 0, 5, 0x49],
{
    let mut frame = with_capacity(6);
    put_u8(&mut frame, 'Z' as u8);
    put_i32(&mut frame, 5);
    put_u8(&mut frame, 'I' as u8);
    frame
}

/// Builds the startup request that names `user` and `database`.
///
/// The length field is a signed 32-bit integer, so the whole message, 25
/// bytes and the two values, has to fit in one.
pub fn startup(user: &str, database: &str) -> (message: BytesMut)
    requires
        user.spec_bytes().len() + database.spec_bytes().len() + 25 <= i32::MAX,
    ensures
        contents(message) == startup_message(user.spec_bytes(), database.spec_bytes()),
        contents(message).len() == user.spec_bytes().len() + database.spec_bytes().len() + 25,
        contents(message).skip(8) == startup_parameters(user.spec_bytes(), database.spec_bytes()),
{
    proof {
        reveal_strlit("user");
        reveal_strlit("database");
        lemma_ascii_len("user");
        lemma_ascii_len("database");
    }
    let mut body = with_capacity(25);
    put_i32(&mut body, PROTOCOL_VERSION);
    put_cstr(&mut body, "user".as_bytes());
    put_cstr(&mut body, user.as_bytes());
    put_cstr(&mut body, "database".as_bytes());
    put_cstr(&mut body, database.as_bytes());
    put_u8(&mut body, 0);
    let total = len(&body) + 4;
    let mut message = with_capacity(total);
    put_i32(&mut message, total as i32);
    put_slice(&mut message, as_slice(&body));
    message
}

/// The UTF-8 encoding of an ASCII string has one byte per character.
proof fn lemma_ascii_len(text: &str)
    requires
        vstd::string::is_ascii(text),
    ensures
        text.spec_bytes().len() == text@.len(),
{
    vstd::utf8::is_ascii_chars_encode_utf8(text@);
}

/// Builds the password frame around a challenge string.
pub fn password_response(challenge: &[u8]) -> (frame: BytesMut)
    requires
        challenge@.len() + 5 <= i32::MAX,
        challenge@.len() + 6 <= isize::MAX,
    ensures
        contents(frame) == password_message(challenge@),
        contents(frame).len() == challenge@.len() + 6,
{
    let size = challenge.len() + 1;
    let mut frame = with_capacity(size + 5);
    put_u8(&mut frame, 'p' as u8);
    put_i32(&mut frame, (size + 4) as i32);
    put_cstr(&mut frame, challenge);
    frame
}

/// Builds the answer to an MD5 password request: the challenge response
/// derived from `password`, `user` and `salt`, in a password frame of 41
/// bytes.
pub fn md5_password(user: &str, password: &str, salt: &[u8]) -> (frame: BytesMut)
    ensures
        contents(frame) == password_message(
            challenge(password.spec_bytes(), user.spec_bytes(), salt@),
        ),
        contents(frame).len() == 41,
{
    let text = md5_challenge(password.as_bytes(), user.as_bytes(), salt);
    password_response(text.as_slice())
}

/// Builds the answer to a custom command: command-complete with `text` as
/// its completion tag, then ready-for-query, as one message.
pub fn custom_protocol_response_ok(text: &str) -> (message: BytesMut)
    requires
        text.spec_bytes().len() + 5 <= i32::MAX,
        text.spec_bytes().len() + 12 <= isize::MAX,
    ensures
        contents(message) == command_complete_message(text.spec_bytes()),
        contents(message).len() == text.spec_bytes().len() + 12,
{
    let bytes = text.as_bytes();
    let size = bytes.len() + 1;
    let mut message = with_capacity(25);
    put_u8(&mut message, 'C' as u8);
    put_i32(&mut message, (size + 4) as i32);
    put_cstr(&mut message, bytes);
    put_u8(&mut message, 'Z' as u8);
    put_i32(&mut message, 5);
    put_u8(&mut message, 'I' as u8);
    message
}

/// Builds the notice that the server is shutting down.
pub fn shutting_down() -> (frame: BytesMut)
    ensures
        contents(frame) == shutdown_message(),
        contents(frame).len() == 78,
{
    proof {
        reveal_strlit("FATAL");
        reveal_strlit("57P01");
        reveal_strlit("terminating connection due to administrator command");
        lemma_ascii_len("FATAL");
        lemma_ascii_len("57P01");
        lemma_ascii_len("terminating connection due to administrator command");
    }
    let mut fields = with_capacity(50);
    put_u8(&mut fields, 'S' as u8);
    put_cstr(&mut fields, "FATAL".as_bytes());
    put_u8(&mut fields, 'V' as u8);
    put_cstr(&mut fields, "FATAL".as_bytes());
    put_u8(&mut fields, 'C' as u8);
    put_cstr(&mut fields, "57P01".as_bytes());
    put_u8(&mut fields, 'M' as u8);
    put_slice(&mut fields, "terminating connection due to administrator command".as_bytes());
    let size = len(&fields);
    let mut frame = with_capacity(size + 5);
    put_u8(&mut frame, 'N' as u8);
    put_i32(&mut frame, (size + 4) as i32);
    put_slice(&mut frame, as_slice(&fields));
    frame
}

/// The mapping from names to values that a parsed parameter set holds.
pub open spec fn params_of(params: StringHashMap<String>) -> Map<Seq<char>, Seq<char>> {
    params@.map_values(|value: String| value@)
}

/// Parses the parameters of a startup frame: the bytes that follow the
/// protocol version.
///
/// The tokens are paired as name and value, in order, and a later pair
/// overrides an earlier one of the same name.  The list is rejected with
/// `ClientBadStartup` unless it holds an even number of tokens, at least
/// two, and defines `user`.
pub fn parse_startup(bytes: BytesMut) -> (result: Result<StringHashMap<String>, Error>)
    ensures
        match result {
            Ok(params) => startup_params(contents(bytes)) == Some(params_of(params)),
            Err(e) => e == Error::ClientBadStartup && startup_params(contents(bytes)) is None,
        },
        tokens(contents(bytes)).len() % 2 == 1 ==> result is Err,
        !token_texts(contents(bytes)).contains(user_key()) ==> result is Err,
{
    let ghost all = contents(bytes);
    let ghost texts = token_texts(all);
    proof {
        if !texts.contains(user_key()) {
            lemma_missing_user_rejected(all);
        }
    }
    let list = read_tokens(bytes);
    let count = list.len();
    if count < 2 || count % 2 != 0 {
        return Err(Error::ClientBadStartup);
    }
    let mut params: StringHashMap<String> = StringHashMap::new();
    let mut i: usize = 0;
    while i < count
        invariant
            count == list.len(),
            count % 2 == 0,
            i % 2 == 0,
            i <= count,
            texts_of(list@) == texts,
            params_of(params) == pair_up(texts.take(i as int)),
        decreases count - i,
    {
        let name = list[i].clone();
        let value = list[i + 1].clone();
        params.insert(name, value);
        proof {
            assert(texts.take(i + 2).take(i as int) =~= texts.take(i as int));
        }
        i += 2;
    }
    proof {
        assert(texts.take(count as int) =~= texts);
        reveal_strlit("user");
    }
    if !params.contains_key("user") {
        return Err(Error::ClientBadStartup);
    }
    Ok(params)
}

/// The UTF-8 bytes of ASCII text without a null character hold no null
/// byte.
proof fn lemma_ascii_nul_free(text: Seq<char>)
    requires
        is_ascii_chars(text),
        !text.contains('\0'),
    ensures
        nul_free(encode_utf8(text)),
{
    vstd::utf8::is_ascii_chars_encode_utf8(text);
    assert forall|i: int| 0 <= i < encode_utf8(text).len() implies encode_utf8(text)[i] != 0 by {
        assert(text.contains(text[i]));
    }
}

/// A startup request, once encoded, parses back to what it was built from:
/// for ASCII `user` and `database`, neither empty nor holding a null
/// character, the parameter section of the request (what follows the length
/// field and the protocol version) yields exactly the mapping of `user` to
/// the user name and `database` to the database name.
pub proof fn lemma_startup_roundtrip(user: Seq<char>, database: Seq<char>)
    requires
        is_ascii_chars(user),
        is_ascii_chars(database),
        user.len() > 0,
        database.len() > 0,
        !user.contains('\0'),
        !database.contains('\0'),
    ensures
        startup_message(encode_utf8(user), encode_utf8(database)).skip(8) == startup_parameters(
            encode_utf8(user),
            encode_utf8(database),
        ),
        startup_params(startup_parameters(encode_utf8(user), encode_utf8(database))) == Some(
            Map::<Seq<char>, Seq<char>>::empty().insert("user"@, user).insert(
                "database"@,
                database,
            ),
        ),
{
    let u = encode_utf8(user);
    let d = encode_utf8(database);
    let user_name = "user".spec_bytes();
    let database_name = "database".spec_bytes();
    let section = startup_parameters(u, d);

    reveal_strlit("user");
    reveal_strlit("database");
    lemma_ascii_nul_free(user);
    lemma_ascii_nul_free(database);
    lemma_ascii_nul_free("user"@);
    lemma_ascii_nul_free("database"@);
    lemma_latin1_of_ascii(user);
    lemma_latin1_of_ascii(database);
    lemma_latin1_of_ascii("user"@);
    lemma_latin1_of_ascii("database"@);

    let end = seq![0u8];
    let after_database = cstr(d) + end;
    let after_user = cstr(database_name) + after_database;
    let after_name = cstr(u) + after_user;
    assert(section =~= cstr(user_name) + after_name);
    lemma_tokens_of_terminated(Seq::<u8>::empty(), Seq::<u8>::empty());
    lemma_tokens_of_unterminated(Seq::<u8>::empty());
    lemma_tokens_of_terminated(d, end);
    lemma_tokens_of_terminated(database_name, after_database);
    lemma_tokens_of_terminated(u, after_user);
    lemma_tokens_of_terminated(user_name, after_name);
    assert(tokens(section) == seq![user_name, u, database_name, d]);
    assert(token_texts(section) == seq!["user"@, user, "database"@, database]);
    reveal_with_fuel(pair_up, 3);
}

/// Decodes a frame header.  Given at least the tag and the length field of
/// a frame, returns how many payload bytes follow them.
///
/// A header shorter than five bytes, or a length field below 4, announces no
/// frame that could be read and is reported as `SocketError`.
pub fn payload_len(header: &BytesMut) -> (result: Result<usize, Error>)
    ensures
        match result {
            Ok(n) => {
                &&& contents(*header).len() >= 5
                &&& frame_length(contents(*header)) >= 4
                &&& n == frame_length(contents(*header)) - 4
            },
            Err(e) => {
                &&& e == Error::SocketError
                &&& (contents(*header).len() < 5 || frame_length(contents(*header)) < 4)
            },
        },
{
    if len(header) < 5 {
        return Err(Error::SocketError);
    }
    let length = read_i32(as_slice(header), 1);
    if length < 4 {
        return Err(Error::SocketError);
    }
    Ok((length - 4) as usize)
}

/// Reads one complete frame off the front of `stream`, the bytes received
/// so far.
///
/// On success the frame is returned whole, tag and length field included,
/// and `stream` keeps what follows it.  If `stream` does not start with a
/// complete frame (it ends too early, or its length field is below 4) the
/// result is `SocketError` and `stream` is left as it was: no partial frame
/// is ever handed out.
pub fn read_message(stream: &mut BytesMut) -> (result: Result<BytesMut, Error>)
    ensures
        match result {
            Ok(frame) => {
                let all = contents(*old(stream));
                &&& starts_with_frame(all)
                &&& contents(frame) == first_frame(all)
                &&& contents(frame).len() == frame_length(all) + 1
                &&& contents(frame).skip(5).len() == frame_length(all) - 4
                &&& contents(frame) == tagged_frame(all[0], all.subrange(5, frame_length(all) + 1))
                &&& contents(*final(stream)) == all.skip(frame_length(all) + 1)
            },
            Err(e) => {
                &&& e == Error::SocketError
                &&& !starts_with_frame(contents(*old(stream)))
                &&& contents(*final(stream)) == contents(*old(stream))
            },
        },
{
    let payload = match payload_len(stream) {
        Ok(n) => n,
        Err(e) => {
            return Err(e);
        },
    };
    if len(stream) - 5 < payload {
        return Err(Error::SocketError);
    }
    proof {
        lemma_first_frame_shape(contents(*stream));
    }
    Ok(split_to(stream, payload + 5))
}

} // verus!

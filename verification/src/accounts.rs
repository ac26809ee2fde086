//! Provider accounts kept in files.

use vstd::prelude::*;
#[allow(unused_imports)]
use vstd::utf8::{
    decode_utf8, encode_utf8, encode_utf8_decode_utf8, encode_utf8_valid_utf8, is_ascii_chars,
    is_ascii_chars_encode_utf8, is_char_boundary, is_char_boundary_iff_not_is_continuation_byte,
};

#[allow(unused_imports)]
use crate::clock::clock_reads;
use crate::clock::{signed_seconds, unix_now};
use crate::json::{encode_pretty, parse_bytes, Json, JsonView};
#[allow(unused_imports)]
use crate::json::{flat_texts, json_parsed, json_pretty, spells};
use crate::order::{row_le, stable_sort, Ranked};
#[allow(unused_imports)]
use crate::order::sorted_from;
use crate::text::{chars_of, ends_with, join2, join3, string_of};
#[allow(unused_imports)]
use crate::text::{finishes_with, opt_view};
use crate::timestamps::is_expired_at;
#[allow(unused_imports)]
use crate::timestamps::past;
use crate::types::{pair_at_most, ProviderAccount};
use crate::uuids::random_tag;
#[allow(unused_imports)]
use crate::uuids::{drawn_tag, lower_hex_char};

verus! {

// ---------------------------------------------------------------------------
// Reading accounts
// ---------------------------------------------------------------------------

/// The account in a file name: what stands before `.json`.
pub open spec fn account_id(file: Seq<char>) -> Option<Seq<char>> {
    if file.len() > 5 && finishes_with(file, ".json"@) {
        Some(file.take(file.len() - 5))
    } else {
        None
    }
}

/// The provider of an account.
pub open spec fn account_provider(doc: JsonView) -> Seq<char> {
    match doc.text_field("type"@) {
        Some(p) => p,
        None => "unknown"@,
    }
}

/// The name of an account: its email address unless that is empty, else its
/// login name, else its identifier.
pub open spec fn account_display(doc: JsonView, id: Seq<char>) -> Seq<char> {
    let login = match doc.text_field("login"@) {
        Some(l) => l,
        None => id,
    };
    match doc.text_field("email"@) {
        Some(e) => if e.len() > 0 {
            e
        } else {
            login
        },
        None => login,
    }
}

/// The account has expired.
pub open spec fn account_expired(doc: JsonView, now: int) -> bool {
    match doc.text_field("expired"@) {
        Some(t) => past(t, now),
        None => false,
    }
}

/// `a` is the account that a document describes.
pub open spec fn is_account(
    a: ProviderAccount,
    doc: JsonView,
    id: Seq<char>,
    enabled: bool,
    now: int,
) -> bool {
    &&& a.provider@ == account_provider(doc)
    &&& a.account_id@ == id
    &&& a.display_name@ == account_display(doc, id)
    &&& a.enabled == enabled
    &&& a.expired == account_expired(doc, now)
}

/// The account in a file name: what stands before `.json`.
pub fn account_id_of_file(file_name: &str) -> (r: Option<String>)
    ensures
        opt_view(r) == account_id(file_name@),
{
    let cs = chars_of(file_name);
    if cs.len() > 5 && ends_with(file_name, ".json") {
        let n: usize = cs.len() - 5;
        let id = string_of(&cs, 0, n);
        assert(id@ =~= file_name@.take(file_name@.len() - 5));
        Some(id)
    } else {
        None
    }
}

/// The account that a document describes, at the time `now`.
pub fn account_from_document(
    doc: &Json,
    account_id: &str,
    enabled: bool,
    now: i64,
) -> (r: ProviderAccount)
    ensures
        is_account(r, doc@, account_id@, enabled, now as int),
{
    let provider = match doc.text_field("type") {
        Some(p) => p,
        None => "unknown".to_owned(),
    };
    let login = match doc.text_field("login") {
        Some(l) => l,
        None => account_id.to_owned(),
    };
    let display_name = match doc.text_field("email") {
        Some(e) => {
            if e.as_str().is_empty() {
                login
            } else {
                e
            }
        },
        None => login,
    };
    let expired = match doc.text_field("expired") {
        Some(t) => is_expired_at(t.as_str(), now),
        None => false,
    };
    ProviderAccount {
        provider,
        account_id: account_id.to_owned(),
        display_name,
        enabled,
        expired,
    }
}

/// The account in a file, at the time `now`. Files that are not named
/// `*.json` or hold no JSON describe none.
pub fn account_from_file(
    file_name: &str,
    content: &str,
    enabled: bool,
    now: i64,
) -> (r: Option<ProviderAccount>)
    ensures
        match (account_id(file_name@), json_parsed(encode_utf8(content@))) {
            (Some(id), Ok(doc)) => r matches Some(a) && is_account(
                a,
                doc,
                id,
                enabled,
                now as int,
            ),
            _ => r is None,
        },
{
    match account_id_of_file(file_name) {
        Some(id) => match parse_bytes(content.as_bytes()) {
            Ok(doc) => Some(account_from_document(&doc, id.as_str(), enabled, now)),
            Err(_) => None,
        },
        None => None,
    }
}

/// The document in a file, if it holds one.
pub fn read_document(content: &str) -> (r: Option<Json>)
    ensures
        match json_parsed(encode_utf8(content@)) {
            Ok(doc) => r matches Some(v) && v@ == doc,
            Err(_) => r is None,
        },
{
    match parse_bytes(content.as_bytes()) {
        Ok(doc) => Some(doc),
        Err(_) => None,
    }
}

/// The time now, in seconds since the Unix epoch. Which number that is rests
/// with the clock.
pub fn now_epoch() -> (r: i64)
    ensures
        exists|secs: u64| #[trigger] clock_reads(secs) && r == secs as i64,
{
    signed_seconds(unix_now())
}

/// Accounts ranked by provider and name.
impl Ranked for ProviderAccount {
    open spec fn ranks_by(&self, other: &Self) -> bool {
        row_le(
            seq![self.provider@, self.display_name@],
            seq![other.provider@, other.display_name@],
        )
    }

    proof fn ranks_total(a: &Self, b: &Self) {
        crate::order::row_le_total(
            seq![a.provider@, a.display_name@],
            seq![b.provider@, b.display_name@],
        );
    }

    proof fn ranks_transitive(a: &Self, b: &Self, c: &Self) {
        crate::order::row_le_transitive(
            seq![a.provider@, a.display_name@],
            seq![b.provider@, b.display_name@],
            seq![c.provider@, c.display_name@],
        );
    }

    fn at_most(&self, other: &Self) -> (r: bool) {
        pair_at_most(
            self.provider.as_str(),
            self.display_name.as_str(),
            other.provider.as_str(),
            other.display_name.as_str(),
        )
    }
}

/// All accounts, by provider and name: first the active ones, then those in
/// the two directories of disabled ones.
pub fn list_accounts(
    active: Vec<ProviderAccount>,
    disabled: Vec<ProviderAccount>,
    auto_disabled: Vec<ProviderAccount>,
) -> (r: Vec<ProviderAccount>)
    ensures
        sorted_from(r@, active@ + disabled@ + auto_disabled@),
{
    let mut all = active;
    let mut more = disabled;
    let mut rest = auto_disabled;
    all.append(&mut more);
    all.append(&mut rest);
    assert(all@ =~= active@ + disabled@ + auto_disabled@);
    stable_sort(all)
}

// ---------------------------------------------------------------------------
// Moving and deleting accounts
// ---------------------------------------------------------------------------

/// The file of an account.
pub fn account_file_name(account_id: &str) -> (r: String)
    ensures
        r@ == account_id@ + ".json"@,
{
    join2(account_id, ".json")
}

/// An account can be disabled if its file is in the active directory.
pub fn check_disable(account_id: &str, active: bool) -> (r: Result<(), String>)
    ensures
        r is Ok <==> active,
        r matches Err(e) ==> e@ == "Account file not found: "@ + account_id@,
{
    if active {
        Ok(())
    } else {
        Err(join2("Account file not found: ", account_id))
    }
}

/// A directory of disabled accounts.
#[derive(Debug, Clone, Copy, PartialEq, Eq, Structural)]
pub enum DisabledPlace {
    /// Disabled by the user.
    Disabled,
    /// Disabled by the backend.
    AutoDisabled,
}

/// Where the file of an account to be enabled is taken from.
pub fn find_disabled(account_id: &str, in_disabled: bool, in_auto: bool) -> (r: Result<
    DisabledPlace,
    String,
>)
    ensures
        in_disabled ==> r == Ok::<DisabledPlace, String>(DisabledPlace::Disabled),
        !in_disabled && in_auto ==> r == Ok::<DisabledPlace, String>(DisabledPlace::AutoDisabled),
        !in_disabled && !in_auto ==> (r matches Err(e) && e@
            == "Disabled account file not found: "@ + account_id@),
{
    if in_disabled {
        Ok(DisabledPlace::Disabled)
    } else if in_auto {
        Ok(DisabledPlace::AutoDisabled)
    } else {
        Err(join2("Disabled account file not found: ", account_id))
    }
}

/// Deleting an account succeeds if one of its files was there.
pub fn check_deleted(account_id: &str, deleted_any: bool) -> (r: Result<(), String>)
    ensures
        r is Ok <==> deleted_any,
        r matches Err(e) ==> e@ == "Account file not found: "@ + account_id@,
{
    check_disable(account_id, deleted_any)
}

/// The error of an operation on an account: `Failed to {what} account {id}: {error}`.
pub fn account_error(what: &str, account_id: &str, error: &str) -> (r: String)
    ensures
        r@ == "Failed to "@ + what@ + " account "@ + account_id@ + ": "@ + error@,
{
    let head = join3("Failed to ", what, " account ");
    let lead = join3(head.as_str(), account_id, ": ");
    join2(lead.as_str(), error)
}

// ---------------------------------------------------------------------------
// API keys
// ---------------------------------------------------------------------------

/// The key can be masked: a key of more than twelve bytes can be cut behind
/// its eighth byte and before its last four.
pub open spec fn maskable(key: Seq<char>) -> bool {
    let b = encode_utf8(key);
    b.len() > 12 ==> is_char_boundary(b, 8) && is_char_boundary(b, b.len() - 4)
}

/// How a key is shown: a key of more than twelve bytes by its first eight and
/// its last four, a shorter one as it is.
pub open spec fn masked(key: Seq<char>) -> Seq<char> {
    let b = encode_utf8(key);
    if b.len() > 12 {
        decode_utf8(b.subrange(0, 8)) + "..."@ + decode_utf8(
            b.subrange(b.len() - 4, b.len() as int),
        )
    } else {
        key
    }
}

/// The key can be masked.
pub fn can_mask(key: &str) -> (r: bool)
    ensures
        r == maskable(key@),
{
    let n: usize = key.as_bytes().len();
    n <= 12 || (key.is_char_boundary(8) && key.is_char_boundary(n - 4))
}

/// How a key is shown.
pub fn mask_key(key: &str) -> (r: String)
    requires
        maskable(key@),
    ensures
        r@ == masked(key@),
{
    let n: usize = key.as_bytes().len();
    if n > 12 {
        let head = key.split_at(8).0;
        let tail = key.split_at(n - 4).1;
        proof {
            encode_utf8_decode_utf8(head@);
            encode_utf8_decode_utf8(tail@);
            assert(encode_utf8(head@) == encode_utf8(key@).subrange(0, 8));
            assert(encode_utf8(tail@) == encode_utf8(key@).subrange(
                n - 4,
                encode_utf8(key@).len() as int,
            ));
        }
        join3(head, "...", tail)
    } else {
        key.to_owned()
    }
}

/// A key of ASCII characters is shown by its first eight characters and its
/// last four; and it can always be shown.
pub proof fn ascii_keys_show_twelve_characters(key: Seq<char>)
    requires
        is_ascii_chars(key),
        key.len() > 12,
    ensures
        masked(key) == key.take(8) + "..."@ + key.skip(key.len() - 4),
        maskable(key),
{
    let b = encode_utf8(key);
    let head = key.take(8);
    let tail = key.skip(key.len() - 4);
    is_ascii_chars_encode_utf8(key);
    is_ascii_chars_encode_utf8(head);
    is_ascii_chars_encode_utf8(tail);
    assert(encode_utf8(head) =~= b.subrange(0, 8));
    assert(encode_utf8(tail) =~= b.subrange(b.len() - 4, b.len() as int));
    encode_utf8_decode_utf8(head);
    encode_utf8_decode_utf8(tail);
    encode_utf8_valid_utf8(key);
    is_char_boundary_iff_not_is_continuation_byte(b, 8);
    is_char_boundary_iff_not_is_continuation_byte(b, b.len() - 4);
}

/// The document of an account with an API key.
pub open spec fn key_document(key: Seq<char>) -> JsonView {
    JsonView::Object(
        seq![
            ("api_key"@, JsonView::Text(key)),
            ("email"@, JsonView::Text(masked(key))),
            ("type"@, JsonView::Text("zai"@)),
        ],
    )
}

/// The document of an account with an API key.
pub fn zai_document(api_key: &str) -> (r: Json)
    requires
        maskable(api_key@),
    ensures
        r@ == key_document(api_key@),
{
    let mut fields: Vec<(String, Json)> = Vec::new();
    fields.push(("api_key".to_owned(), Json::Text(api_key.to_owned())));
    fields.push(("email".to_owned(), Json::Text(mask_key(api_key))));
    fields.push(("type".to_owned(), Json::Text("zai".to_owned())));
    proof {
        crate::json::lemma_object_view(fields);
        assert(crate::json::field_views(fields@) =~= seq![
            ("api_key"@, JsonView::Text(api_key@)),
            ("email"@, JsonView::Text(masked(api_key@))),
            ("type"@, JsonView::Text("zai"@)),
        ]);
    }
    Json::Object(fields)
}

/// The document of an account with an API key is an object of texts.
proof fn lemma_key_document_is_flat(key: Seq<char>)
    ensures
        flat_texts(key_document(key)),
{
    reveal_strlit("api_key");
    reveal_strlit("email");
    reveal_strlit("type");
    assert("api_key"@[0] == 'a' && "email"@[0] == 'e' && "type"@[0] == 't');
}

/// The content of the file of an account with an API key. The file holds the
/// account's document.
pub fn zai_file_content(api_key: &str) -> (r: String)
    requires
        maskable(api_key@),
    ensures
        r@ == json_pretty(key_document(api_key@)),
        spells(r@, key_document(api_key@)),
{
    let doc = zai_document(api_key);
    proof {
        lemma_key_document_is_flat(api_key@);
    }
    encode_pretty(&doc)
}

/// The file name of an account with an API key, with a tag to tell it apart.
pub fn zai_file_name(tag: &str) -> (r: String)
    ensures
        r@ == "zai-"@ + tag@ + ".json"@,
{
    join3("zai-", tag, ".json")
}

/// A new file name of an account with an API key. The tag is random.
pub fn new_zai_file_name() -> (r: String)
    ensures
        exists|tag: Seq<char>|
            {
                &&& #[trigger] drawn_tag(tag)
                &&& tag.len() == 8
                &&& forall|i: int| 0 <= i < 8 ==> lower_hex_char(#[trigger] tag[i])
                &&& r@ == "zai-"@ + tag + ".json"@
            },
{
    let tag = random_tag();
    zai_file_name(tag.as_str())
}

/// A saved key is read back as an account of the provider that does not
/// expire, named by the masked key unless that is empty.
pub proof fn saved_key_reads_back(key: Seq<char>, id: Seq<char>, now: int)
    ensures
        account_provider(key_document(key)) == "zai"@,
        account_display(key_document(key), id) == if masked(key).len() > 0 {
            masked(key)
        } else {
            id
        },
        !account_expired(key_document(key), now),
        key_document(key).text_field("api_key"@) == Some(key),
{
    reveal_strlit("api_key");
    reveal_strlit("email");
    reveal_strlit("type");
    reveal_strlit("expired");
    reveal_strlit("login");
    let f0 = seq![
        ("api_key"@, JsonView::Text(key)),
        ("email"@, JsonView::Text(masked(key))),
        ("type"@, JsonView::Text("zai"@)),
    ];
    let f1 = seq![("email"@, JsonView::Text(masked(key))), ("type"@, JsonView::Text("zai"@))];
    let f2 = seq![("type"@, JsonView::Text("zai"@))];
    assert(f0.drop_first() =~= f1);
    assert(f1.drop_first() =~= f2);
    assert(f2.drop_first() =~= Seq::empty());
    reveal_with_fuel(crate::json::lookup, 4);
    assert("api_key"@.len() == 7 && "email"@.len() == 5 && "type"@.len() == 4);
    assert("expired"@.len() == 7 && "login"@.len() == 5);
    assert("api_key"@[0] == 'a' && "expired"@[0] == 'e');
    assert("email"@[0] == 'e' && "login"@[0] == 'l');
}

/// A file is an account's exactly if its name is more than `.json` and ends in
/// it; what stands before names the account, and its file has that name again.
pub proof fn account_files_name_their_accounts(id: Seq<char>, file: Seq<char>)
    ensures
        id.len() > 0 ==> account_id(id + ".json"@) == Some(id),
        account_id(".json"@) is None,
        !finishes_with(file, ".json"@) ==> account_id(file) is None,
        account_id(file) matches Some(i) ==> i + ".json"@ == file && i.len() > 0,
{
    reveal_strlit(".json");
    crate::text::ends_are_found(file, ".json"@, id);
    assert((id + ".json"@).take((id + ".json"@).len() - 5) =~= id);
}

/// An account is of the provider in its field `type`, else of an unknown one.
/// It is called by its email address where that is not empty, else by its
/// login name, else by its identifier. It has expired exactly if its field
/// `expired` spells a moment before now.
pub proof fn accounts_are_read_from_their_fields(
    doc: JsonView,
    id: Seq<char>,
    t: Seq<char>,
    now: int,
)
    ensures
        doc.get("type"@) == Some(JsonView::Text(t)) ==> account_provider(doc) == t,
        doc.get("type"@) is None || !(doc.get("type"@)->0 is Text) ==> account_provider(doc)
            == "unknown"@,
        doc.get("email"@) == Some(JsonView::Text(t)) && t.len() > 0 ==> account_display(doc, id)
            == t,
        ({
            let nameless = doc.get("email"@) is None || !(doc.get("email"@)->0 is Text) || doc.get(
                "email"@,
            ) == Some(JsonView::Text(Seq::empty()));
            &&& nameless && doc.get("login"@) == Some(JsonView::Text(t)) ==> account_display(
                doc,
                id,
            ) == t
            &&& nameless && (doc.get("login"@) is None || !(doc.get("login"@)->0 is Text))
                ==> account_display(doc, id) == id
        }),
        doc.get("expired"@) == Some(JsonView::Text(t)) ==> (account_expired(doc, now) <==> (
        crate::timestamps::epoch_of(t) matches Some(then) && then < now)),
        doc.get("expired"@) is None || !(doc.get("expired"@)->0 is Text) ==> !account_expired(
            doc,
            now,
        ),
{
}

/// An account that a document describes has the provider in `type`, the given
/// identifier and state, and has expired where the moment in `expired` is past.
pub proof fn accounts_are_what_their_documents_say(
    a: ProviderAccount,
    doc: JsonView,
    id: Seq<char>,
    enabled: bool,
    now: int,
    t: Seq<char>,
)
    requires
        is_account(a, doc, id, enabled, now),
    ensures
        a.account_id@ == id,
        a.enabled == enabled,
        doc.get("type"@) == Some(JsonView::Text(t)) ==> a.provider@ == t,
        doc.get("email"@) == Some(JsonView::Text(t)) && t.len() > 0 ==> a.display_name@ == t,
        doc.get("email"@) is None && doc.get("login"@) == Some(JsonView::Text(t))
            ==> a.display_name@ == t,
        doc.get("email"@) is None && doc.get("login"@) is None ==> a.display_name@ == id,
        doc.get("expired"@) == Some(JsonView::Text(t)) ==> (a.expired <==> (
        crate::timestamps::epoch_of(t) matches Some(then) && then < now)),
        doc.get("expired"@) is None ==> !a.expired,
{
}

/// A key of at most twelve bytes is shown as it is; a longer one by its first
/// eight bytes and its last four, with three dots between them.
pub proof fn long_keys_are_masked(key: Seq<char>, head: Seq<char>, body: Seq<char>, tail: Seq<char>)
    ensures
        encode_utf8(key).len() <= 12 ==> masked(key) == key && maskable(key),
        encode_utf8(key) == encode_utf8(head) + encode_utf8(body) + encode_utf8(tail)
            && encode_utf8(head).len() == 8 && encode_utf8(tail).len() == 4 && encode_utf8(
            body,
        ).len() > 0 ==> masked(key) == head + seq!['.', '.', '.'] + tail,
{
    reveal_strlit("...");
    assert("..."@ =~= seq!['.', '.', '.']);
    let b = encode_utf8(key);
    let h = encode_utf8(head);
    let m = encode_utf8(body);
    let t = encode_utf8(tail);
    if b == h + m + t && h.len() == 8 && t.len() == 4 && m.len() > 0 {
        assert(b.subrange(0, 8) =~= h);
        assert(b.subrange(b.len() - 4, b.len() as int) =~= t);
        encode_utf8_decode_utf8(head);
        encode_utf8_decode_utf8(tail);
    }
}

/// The file of a key says whose it is: the provider, the masked key for its
/// name, and the key itself.
pub proof fn key_files_hold_the_key(key: Seq<char>)
    ensures
        key_document(key).get("type"@) == Some(JsonView::Text("zai"@)),
        key_document(key).get("email"@) == Some(JsonView::Text(masked(key))),
        key_document(key).get("api_key"@) == Some(JsonView::Text(key)),
{
    reveal_strlit("api_key");
    reveal_strlit("email");
    reveal_strlit("type");
    assert("api_key"@.len() == 7 && "email"@.len() == 5 && "type"@.len() == 4);
    let f0 = key_document(key)->Object_0;
    let f1 = f0.drop_first();
    let f2 = f1.drop_first();
    assert(f0[0] == ("api_key"@, JsonView::Text(key)));
    assert(f1[0] == ("email"@, JsonView::Text(masked(key))));
    assert(f2[0] == ("type"@, JsonView::Text("zai"@)));
    reveal_with_fuel(crate::json::lookup, 4);
}

/// Accounts stand by the name of their provider, and those of one provider by
/// the name they are shown under.
pub proof fn accounts_stand_by_provider_and_name(a: ProviderAccount, b: ProviderAccount)
    ensures
        a.provider@ != b.provider@ ==> (a.ranks_by(&b) <==> crate::order::text_le(
            a.provider@,
            b.provider@,
        )),
        a.provider@ == b.provider@ ==> (a.ranks_by(&b) <==> crate::order::text_le(
            a.display_name@,
            b.display_name@,
        )),
{
    reveal_with_fuel(row_le, 3);
    let x = seq![a.provider@, a.display_name@];
    let y = seq![b.provider@, b.display_name@];
    assert(x.drop_first() =~= seq![a.display_name@]);
    assert(y.drop_first() =~= seq![b.display_name@]);
    assert(x.drop_first().drop_first() =~= Seq::empty());
    if a.display_name@ == b.display_name@ {
        crate::order::text_le_total(a.display_name@, b.display_name@);
    }
}

} // verus!

//! The index of the deployment profiles: what the catalog says of them, held
//! against the values file of each.
use vstd::prelude::*;

use crate::keyed::Keyed;
use crate::mode::Mode;
use crate::numeral::hex;
use crate::refusal::{Refusal, Stop};
use crate::text::{chars_of, holds, same, strip_suffix};

verus! {

/// `serde_json::Value`: any JSON value.
#[verifier::external_type_specification]
#[verifier::external_body]
pub struct ExJsonValue(serde_json::Value);

/// `serde_json::Error`: why a value could not be written as JSON.
#[verifier::external_type_specification]
#[verifier::external_body]
pub struct ExJsonError(serde_json::Error);

/// The members of a JSON object that are booleans, by their keys; none where
/// the value is no object.
pub uninterp spec fn bool_members(value: serde_json::Value) -> Map<Seq<char>, bool>;

/// `serde_json::Value::get` with a string, and `Value::as_bool` on what it
/// finds: the member of that key, where the value is an object that has one
/// and the member is a boolean.
#[verifier::external_body]
fn bool_member(value: &serde_json::Value, key: &str) -> (r: Option<bool>)
    ensures
        r == (if bool_members(*value).contains_key(key@) {
            Some(bool_members(*value)[key@])
        } else {
            None
        }),
{
    value.get(key).and_then(serde_json::Value::as_bool)
}

/// The members of a JSON object that are strings, by their keys; none where
/// the value is no object.
pub uninterp spec fn str_members(value: serde_json::Value) -> Map<Seq<char>, Seq<char>>;

/// `serde_json::Value::get` with a string, and `Value::as_str` on what it
/// finds: the member of that key, where the value is an object that has one
/// and the member is a string.
#[verifier::external_body]
fn str_member(value: &serde_json::Value, key: &str) -> (r: Option<String>)
    ensures
        match r {
            Some(text) => str_members(*value).contains_key(key@) && text@ == str_members(
                *value,
            )[key@],
            None => !str_members(*value).contains_key(key@),
        },
{
    value.get(key).and_then(serde_json::Value::as_str).map(str::to_owned)
}

/// The bytes of a JSON value, where it can be written.
pub uninterp spec fn json_bytes(value: serde_json::Value) -> Option<Seq<u8>>;

/// `serde_json::to_vec` of a JSON value. The bytes depend on the value alone;
/// how they are laid out is not stated.
#[verifier::external_body]
fn to_json(value: &serde_json::Value) -> (r: Result<Vec<u8>, serde_json::Error>)
    ensures
        match r {
            Ok(bytes) => json_bytes(*value) == Some(bytes@),
            Err(_) => json_bytes(*value) is None,
        },
{
    serde_json::to_vec(value)
}

/// The SHA-256 digest of some bytes.
pub uninterp spec fn sha256(bytes: Seq<u8>) -> Seq<u8>;

/// `sha2::Sha256::digest`: the digest depends on the bytes alone and is 32
/// bytes long; its algorithm is not stated.
#[verifier::external_body]
fn digest(bytes: &Vec<u8>) -> (r: Vec<u8>)
    ensures
        r@ == sha256(bytes@),
        r@.len() == 32,
{
    <sha2::Sha256 as sha2::Digest>::digest(bytes).to_vec()
}

/// A family of profiles, as the catalog has it.
pub struct FamilySource {
    pub id: String,
    pub display_name: String,
    pub model_examples: Vec<String>,
    pub profiles: Vec<String>,
}

pub struct Catalog {
    pub schema_version: u32,
    pub families: Vec<FamilySource>,
}

/// What is in a values file.
pub enum ValuesFile {
    Unreadable,
    Unparsable,
    /// Its profiles, by name.
    Profiles(Vec<(String, serde_json::Value)>),
}

#[derive(Debug)]
pub struct Profile {
    pub name: String,
    pub cc_mode: String,
    pub values_file: String,
    pub values_sha256: String,
}

/// A [`Profile`] as text.
#[verifier::ext_equal]
pub struct ProfileText {
    pub name: Seq<char>,
    pub cc_mode: Seq<char>,
    pub values_file: Seq<char>,
    pub values_sha256: Seq<char>,
}

impl View for Profile {
    type V = ProfileText;

    open spec fn view(&self) -> ProfileText {
        ProfileText {
            name: self.name@,
            cc_mode: self.cc_mode@,
            values_file: self.values_file@,
            values_sha256: self.values_sha256@,
        }
    }
}

pub open spec fn profile_texts(v: Seq<Profile>) -> Seq<ProfileText> {
    v.map_values(|profile: Profile| profile@)
}

#[derive(Debug)]
pub struct Family {
    pub id: String,
    pub display_name: String,
    pub model_examples: Vec<String>,
    pub profiles: Vec<Profile>,
}

/// A [`Family`] as text.
#[verifier::ext_equal]
pub struct FamilyText {
    pub id: Seq<char>,
    pub display_name: Seq<char>,
    pub model_examples: Seq<Seq<char>>,
    pub profiles: Seq<ProfileText>,
}

impl View for Family {
    type V = FamilyText;

    open spec fn view(&self) -> FamilyText {
        FamilyText {
            id: self.id@,
            display_name: self.display_name@,
            model_examples: crate::text::texts(self.model_examples@),
            profiles: profile_texts(self.profiles@),
        }
    }
}

pub open spec fn family_texts(v: Seq<Family>) -> Seq<FamilyText> {
    v.map_values(|family: Family| family@)
}

#[derive(Debug)]
pub struct Index {
    pub schema_version: u32,
    pub families: Vec<Family>,
}

/// Whether the index is only to be checked, by the program's arguments.
pub fn parse_args(args: &Vec<String>) -> (r: Result<bool, Refusal>)
    ensures
        match r {
            Ok(check) => if check {
                args@.len() == 1 && args@[0]@ == "--check"@
            } else {
                args@.len() == 0
            },
            Err(refusal) => {
                &&& args@.len() > 0
                &&& !(args@.len() == 1 && args@[0]@ == "--check"@)
                &&& refusal.message@ == "usage: generate-profile-index [--check]"@
            },
        },
{
    if args.len() == 0 {
        return Ok(false);
    }
    if args.len() == 1 && same(args[0].as_str(), "--check") {
        return Ok(true);
    }
    Err(Refusal { message: "usage: generate-profile-index [--check]".to_owned() })
}

/// An ASCII letter or digit, or a dash.
pub open spec fn name_char(c: char) -> bool {
    ('a' <= c <= 'z') || ('A' <= c <= 'Z') || ('0' <= c <= '9') || c == '-'
}

pub open spec fn is_name(name: Seq<char>) -> bool {
    name.len() > 0 && forall|i: int| 0 <= i < name.len() ==> name_char(#[trigger] name[i])
}

/// Whether `name` can name a profile: ASCII letters, digits and dashes, and at
/// least one of them.
pub fn is_profile_name(name: &str) -> (r: bool)
    ensures
        r == is_name(name@),
{
    let chars = chars_of(name);
    if chars.len() == 0 {
        return false;
    }
    for i in 0..chars.len()
        invariant
            chars@ == name@,
            forall|j: int| 0 <= j < i ==> name_char(#[trigger] name@[j]),
    {
        let c = chars[i];
        if !(('a' <= c && c <= 'z') || ('A' <= c && c <= 'Z') || ('0' <= c && c <= '9') || c
            == '-') {
            assert(!name_char(name@[i as int]));
            return false;
        }
    }
    true
}

/// The values file of a profile, as it is named to the operator.
pub open spec fn values_path(name: Seq<char>) -> Seq<char> {
    "profiles/"@ + name + ".values.yaml"@
}

pub fn values_file(name: &str) -> (r: String)
    ensures
        r@ == values_path(name@),
{
    let mut path = "profiles/".to_owned();
    path.append(name);
    path.append(".values.yaml");
    path
}

/// `text` is the name of a mode.
pub open spec fn names_mode(text: Seq<char>) -> bool {
    exists|mode: Mode| #[trigger] mode.text() == text
}

/// The profile is enabled, and its mode is one.
pub open spec fn is_usable(enabled: Option<bool>, cc_mode: Option<Seq<char>>) -> bool {
    enabled == Some(true) && (cc_mode matches Some(mode) && names_mode(mode))
}

/// The CC mode of a profile that can be deployed: one that is enabled and has
/// a mode that is one.
pub fn usable_mode(path: &str, enabled: Option<bool>, cc_mode: Option<String>) -> (r: Result<
    String,
    Refusal,
>)
    ensures
        match r {
            Ok(mode) => {
                &&& is_usable(
                    enabled,
                    match cc_mode {
                        Some(mode) => Some(mode@),
                        None => None,
                    },
                )
                &&& cc_mode == Some(mode)
            },
            Err(refusal) => {
                &&& !is_usable(
                    enabled,
                    match cc_mode {
                        Some(mode) => Some(mode@),
                        None => None,
                    },
                )
                &&& refusal.message@ == path@ + " has a disabled profile or invalid ccMode"@
            },
        },
{
    if let (Some(true), Some(mode)) = (enabled, cc_mode) {
        if let Ok(known) = Mode::from_str(mode.as_str()) {
            assert(known.text() == mode@);
            return Ok(mode);
        }
    }
    let mut message = path.to_owned();
    message.append(" has a disabled profile or invalid ccMode");
    Err(Refusal { message })
}

/// Bytes as lower-case hexadecimal, two digits for each.
pub open spec fn hex_bytes(bytes: Seq<u8>) -> Seq<char>
    decreases bytes.len(),
{
    if bytes.len() == 0 {
        Seq::empty()
    } else {
        hex_bytes(bytes.drop_last()) + crate::numeral::hex_text(bytes.last() as nat, 2)
    }
}

pub fn to_hex(bytes: &Vec<u8>) -> (r: String)
    ensures
        r@ == hex_bytes(bytes@),
{
    let mut out = String::new();
    assert(out@ =~= hex_bytes(bytes@.take(0)));
    for i in 0..bytes.len()
        invariant
            out@ == hex_bytes(bytes@.take(i as int)),
    {
        assert(bytes@.take(i + 1).drop_last() =~= bytes@.take(i as int));
        out.append(hex(bytes[i] as u64, 2).as_str());
    }
    assert(bytes@.take(bytes@.len() as int) =~= bytes@);
    out
}

/// What is said of a file where something goes wrong with it.
pub open spec fn trouble(what: Seq<char>, name: Seq<char>) -> crate::refusal::StopText {
    crate::refusal::StopText::Failed { context: Some(what + values_path(name)) }
}

pub open spec fn complaint(name: Seq<char>, what: Seq<char>) -> crate::refusal::StopText {
    crate::refusal::StopText::Refused { message: values_path(name) + what }
}

/// The string member of a JSON object at `key`.
pub open spec fn str_at(value: serde_json::Value, key: Seq<char>) -> Option<Seq<char>> {
    if str_members(value).contains_key(key) {
        Some(str_members(value)[key])
    } else {
        None
    }
}

/// The boolean member of a JSON object at `key`.
pub open spec fn bool_at(value: serde_json::Value, key: Seq<char>) -> Option<bool> {
    if bool_members(value).contains_key(key) {
        Some(bool_members(value)[key])
    } else {
        None
    }
}

/// The entry of a profile that is enabled or not, asks for a mode or not, and
/// has values of some digest, where they can be written down.
pub open spec fn entry_from(
    name: Seq<char>,
    enabled: Option<bool>,
    cc_mode: Option<Seq<char>>,
    digest: Option<Seq<u8>>,
) -> Result<ProfileText, crate::refusal::StopText> {
    if !is_usable(enabled, cc_mode) {
        Err(complaint(name, " has a disabled profile or invalid ccMode"@))
    } else {
        match digest {
            Some(digest) => Ok(
                ProfileText {
                    name,
                    cc_mode: cc_mode->0,
                    values_file: values_path(name),
                    values_sha256: hex_bytes(digest),
                },
            ),
            None => Err(crate::refusal::StopText::Failed { context: None }),
        }
    }
}

/// The digest of a JSON value, where it can be written.
pub open spec fn value_digest(value: serde_json::Value) -> Option<Seq<u8>> {
    match json_bytes(value) {
        Some(bytes) => Some(sha256(bytes)),
        None => None,
    }
}

/// The entry of a profile whose values are `value`.
pub open spec fn entry_text(name: Seq<char>, value: serde_json::Value) -> Result<
    ProfileText,
    crate::refusal::StopText,
> {
    entry_from(
        name,
        bool_at(value, "enabled"@),
        str_at(value, "ccMode"@),
        value_digest(value),
    )
}

/// The entry of a profile, by its values file: one profile, of that name, that
/// can be deployed.
pub open spec fn profile_text(name: Seq<char>, file: ValuesFile) -> Result<
    ProfileText,
    crate::refusal::StopText,
> {
    match file {
        ValuesFile::Unreadable => Err(trouble("read "@, name)),
        ValuesFile::Unparsable => Err(trouble("parse "@, name)),
        ValuesFile::Profiles(profiles) => if profiles@.len() != 1 {
            Err(complaint(name, " must contain one profile"@))
        } else if profiles@[0].0@ != name {
            Err(complaint(name, " must contain profiles."@ + name))
        } else {
            entry_text(name, profiles@[0].1)
        },
    }
}

/// The two tell of the same entry, or of the same failure.
pub open spec fn is_entry(
    r: Result<Profile, Stop>,
    text: Result<ProfileText, crate::refusal::StopText>,
) -> bool {
    match (r, text) {
        (Ok(profile), Ok(text)) => profile@ == text,
        (Err(stop), Err(text)) => stop@ == text,
        _ => false,
    }
}

fn complain(name: &str, what: &str) -> (r: Stop)
    ensures
        r@ == complaint(name@, what@),
{
    let mut message = values_file(name);
    message.append(what);
    Stop::Refused { message }
}

fn fail_on(what: &str, name: &str) -> (r: Stop)
    ensures
        r@ == trouble(what@, name@),
{
    let mut context = what.to_owned();
    context.append(values_file(name).as_str());
    Stop::Failed { context: Some(context) }
}

/// The index entry of a profile, by what its values say.
pub fn make_entry(
    name: &str,
    enabled: Option<bool>,
    cc_mode: Option<String>,
    digest: Option<Vec<u8>>,
) -> (r: Result<Profile, Stop>)
    ensures
        is_entry(
            r,
            entry_from(
                name@,
                enabled,
                match cc_mode {
                    Some(mode) => Some(mode@),
                    None => None,
                },
                match digest {
                    Some(digest) => Some(digest@),
                    None => None,
                },
            ),
        ),
{
    let path = values_file(name);
    let mode = match usable_mode(path.as_str(), enabled, cc_mode) {
        Ok(mode) => mode,
        Err(refusal) => {
            return Err(Stop::Refused { message: refusal.message });
        },
    };
    match digest {
        Some(digest) => Ok(
            Profile {
                name: name.to_owned(),
                cc_mode: mode,
                values_file: path,
                values_sha256: to_hex(&digest),
            },
        ),
        None => Err(Stop::Failed { context: None }),
    }
}

/// The index entry of a profile whose values are `value`.
pub fn entry(name: &str, value: &serde_json::Value) -> (r: Result<Profile, Stop>)
    ensures
        is_entry(r, entry_text(name@, *value)),
{
    let enabled = bool_member(value, "enabled");
    let cc_mode = str_member(value, "ccMode");
    let sum = match to_json(value) {
        Ok(bytes) => Some(digest(&bytes)),
        Err(_) => None,
    };
    make_entry(name, enabled, cc_mode, sum)
}

/// The index entry of a profile, by its values file.
pub fn profile(name: &str, file: &ValuesFile) -> (r: Result<Profile, Stop>)
    ensures
        is_entry(r, profile_text(name@, *file)),
{
    match file {
        ValuesFile::Unreadable => Err(fail_on("read ", name)),
        ValuesFile::Unparsable => Err(fail_on("parse ", name)),
        ValuesFile::Profiles(profiles) => {
            if profiles.len() != 1 {
                return Err(complain(name, " must contain one profile"));
            }
            let (held, value) = &profiles[0];
            if !same(held.as_str(), name) {
                let mut what = " must contain profiles.".to_owned();
                what.append(name);
                return Err(complain(name, what.as_str()));
            }
            entry(name, value)
        },
    }
}

/// What is in the values file of a profile; one that is not there cannot be
/// read.
pub open spec fn file_of(files: Map<Seq<char>, ValuesFile>, name: Seq<char>) -> ValuesFile {
    if files.contains_key(name) {
        files[name]
    } else {
        ValuesFile::Unreadable
    }
}

/// The entries of a family's profiles, where the names in `taken` are used up.
pub open spec fn entries(
    names: Seq<Seq<char>>,
    taken: Seq<Seq<char>>,
    files: Map<Seq<char>, ValuesFile>,
) -> Result<Seq<ProfileText>, crate::refusal::StopText>
    decreases names.len(),
{
    if names.len() == 0 {
        Ok(Seq::empty())
    } else {
        match entries(names.drop_last(), taken, files) {
            Err(stop) => Err(stop),
            Ok(earlier) => {
                let name = names.last();
                if !is_name(name) || (taken + names.drop_last()).contains(name) {
                    Err(
                        crate::refusal::StopText::Refused {
                            message: "invalid or duplicate profile name: "@ + name,
                        },
                    )
                } else {
                    match profile_text(name, file_of(files, name)) {
                        Err(stop) => Err(stop),
                        Ok(profile) => Ok(earlier.push(profile)),
                    }
                }
            },
        }
    }
}

/// The names of the profiles of all `families`, in order.
pub open spec fn all_names(families: Seq<FamilySource>) -> Seq<Seq<char>>
    decreases families.len(),
{
    if families.len() == 0 {
        Seq::empty()
    } else {
        all_names(families.drop_last()) + crate::text::texts(families.last().profiles@)
    }
}

pub open spec fn all_ids(families: Seq<FamilySource>) -> Seq<Seq<char>> {
    families.map_values(|family: FamilySource| family.id@)
}

/// The index of the families, where the catalog and the values files are in
/// order; else the first thing that is not.
pub open spec fn indexed(
    families: Seq<FamilySource>,
    files: Map<Seq<char>, ValuesFile>,
) -> Result<Seq<FamilyText>, crate::refusal::StopText>
    decreases families.len(),
{
    if families.len() == 0 {
        Ok(Seq::empty())
    } else {
        let front = families.drop_last();
        let family = families.last();
        match indexed(front, files) {
            Err(stop) => Err(stop),
            Ok(earlier) => if family.id@.len() == 0 || all_ids(front).contains(family.id@) {
                Err(
                    crate::refusal::StopText::Refused {
                        message: "empty or duplicate family id: "@ + family.id@,
                    },
                )
            } else if family.display_name@.len() == 0 || family.profiles@.len() == 0 {
                Err(
                    crate::refusal::StopText::Refused {
                        message: "family "@ + family.id@ + " needs a display name and profiles"@,
                    },
                )
            } else {
                match entries(crate::text::texts(family.profiles@), all_names(front), files) {
                    Err(stop) => Err(stop),
                    Ok(profiles) => Ok(
                        earlier.push(
                            FamilyText {
                                id: family.id@,
                                display_name: family.display_name@,
                                model_examples: crate::text::texts(family.model_examples@),
                                profiles,
                            },
                        ),
                    ),
                }
            },
        }
    }
}

/// The two tell of the same entries, or of the same failure.
pub open spec fn are_entries(
    r: Result<Vec<Profile>, Stop>,
    text: Result<Seq<ProfileText>, crate::refusal::StopText>,
) -> bool {
    match (r, text) {
        (Ok(profiles), Ok(text)) => profile_texts(profiles@) == text,
        (Err(stop), Err(text)) => stop@ == text,
        _ => false,
    }
}

/// A failure in the first names is a failure in all of them.
proof fn lemma_entries_fail(
    names: Seq<Seq<char>>,
    taken: Seq<Seq<char>>,
    files: Map<Seq<char>, ValuesFile>,
    k: int,
)
    requires
        0 <= k <= names.len(),
        entries(names.take(k), taken, files) is Err,
    ensures
        entries(names, taken, files) == entries(names.take(k), taken, files),
    decreases names.len() - k,
{
    if k < names.len() {
        assert(names.take(k + 1).drop_last() =~= names.take(k));
        lemma_entries_fail(names, taken, files, k + 1);
    } else {
        assert(names.take(k) =~= names);
    }
}

fn list_entries(names: &Vec<String>, taken: &mut Vec<String>, files: &Keyed<ValuesFile>) -> (r:
    Result<Vec<Profile>, Stop>)
    ensures
        are_entries(
            r,
            entries(crate::text::texts(names@), crate::text::texts(old(taken)@), files@),
        ),
        r is Ok ==> crate::text::texts(final(taken)@) == crate::text::texts(old(taken)@)
            + crate::text::texts(names@),
{
    let ghost before = crate::text::texts(taken@);
    let ghost all = crate::text::texts(names@);
    let mut out: Vec<Profile> = Vec::new();
    assert(profile_texts(out@) =~= Seq::<ProfileText>::empty());
    assert(before + all.take(0) =~= before);
    for i in 0..names.len()
        invariant
            all == crate::text::texts(names@),
            before == crate::text::texts(old(taken)@),
            crate::text::texts(taken@) == before + all.take(i as int),
            entries(all.take(i as int), before, files@) == Ok::<
                Seq<ProfileText>,
                crate::refusal::StopText,
            >(profile_texts(out@)),
    {
        let name = &names[i];
        assert(all.take(i + 1).drop_last() =~= all.take(i as int));
        assert(all.take(i + 1).last() == name@);
        if !is_profile_name(name.as_str()) || holds(taken, name.as_str()) {
            let mut message = "invalid or duplicate profile name: ".to_owned();
            message.append(name.as_str());
            proof {
                lemma_entries_fail(all, before, files@, i + 1);
            }
            return Err(Stop::Refused { message });
        }
        let ghost so_far = taken@;
        taken.push(name.clone());
        assert(crate::text::texts(taken@) =~= crate::text::texts(so_far).push(name@));
        assert(before + all.take(i + 1) =~= (before + all.take(i as int)).push(name@));
        let made = match files.get(name.as_str()) {
            Some(file) => profile(name.as_str(), file),
            None => Err(fail_on("read ", name.as_str())),
        };
        match made {
            Ok(entry) => {
                let ghost entries_before = out@;
                out.push(entry);
                assert(profile_texts(out@) =~= profile_texts(entries_before).push(entry@));
            },
            Err(stop) => {
                proof {
                    lemma_entries_fail(all, before, files@, i + 1);
                }
                return Err(stop);
            },
        }
    }
    assert(all.take(all.len() as int) =~= all);
    Ok(out)
}

/// A failure in the first families is a failure in all of them.
proof fn lemma_indexed_fails(
    families: Seq<FamilySource>,
    files: Map<Seq<char>, ValuesFile>,
    k: int,
)
    requires
        0 <= k <= families.len(),
        indexed(families.take(k), files) is Err,
    ensures
        indexed(families, files) == indexed(families.take(k), files),
    decreases families.len() - k,
{
    if k < families.len() {
        assert(families.take(k + 1).drop_last() =~= families.take(k));
        lemma_indexed_fails(families, files, k + 1);
    } else {
        assert(families.take(k) =~= families);
    }
}

fn copy_texts(list: &Vec<String>) -> (r: Vec<String>)
    ensures
        crate::text::texts(r@) == crate::text::texts(list@),
{
    let mut out: Vec<String> = Vec::new();
    for i in 0..list.len()
        invariant
            crate::text::texts(out@) == crate::text::texts(list@).take(i as int),
    {
        let ghost so_far = out@;
        out.push(list[i].clone());
        assert(crate::text::texts(out@) =~= crate::text::texts(so_far).push(list@[i as int]@));
        assert(crate::text::texts(list@).take(i + 1) =~= crate::text::texts(list@).take(
            i as int,
        ).push(list@[i as int]@));
    }
    assert(crate::text::texts(list@).take(list@.len() as int) =~= crate::text::texts(list@));
    out
}

/// The index of a catalog, or why there is none.
pub open spec fn index_text(
    catalog: Catalog,
    files: Map<Seq<char>, ValuesFile>,
) -> Result<Seq<FamilyText>, crate::refusal::StopText> {
    if catalog.schema_version != 1 {
        Err(
            crate::refusal::StopText::Refused { message: "unsupported catalog schema"@ },
        )
    } else {
        indexed(catalog.families@, files)
    }
}

/// The index of the catalog's profiles. `files` holds what is in the values
/// file of each profile that can be one by its name.
pub fn index(catalog: &Catalog, files: &Keyed<ValuesFile>) -> (r: Result<Index, Stop>)
    ensures
        match (r, index_text(*catalog, files@)) {
            (Ok(index), Ok(families)) => index.schema_version == 1 && family_texts(
                index.families@,
            ) == families,
            (Err(stop), Err(text)) => stop@ == text,
            _ => false,
        },
{
    if catalog.schema_version != 1 {
        return Err(Stop::Refused { message: "unsupported catalog schema".to_owned() });
    }
    let families = &catalog.families;
    let mut ids: Vec<String> = Vec::new();
    let mut names: Vec<String> = Vec::new();
    let mut out: Vec<Family> = Vec::new();
    assert(crate::text::texts(ids@) =~= all_ids(families@.take(0)));
    assert(crate::text::texts(names@) =~= all_names(families@.take(0)));
    assert(family_texts(out@) =~= Seq::<FamilyText>::empty());
    for i in 0..families.len()
        invariant
            catalog.schema_version == 1,
            *families == catalog.families,
            crate::text::texts(ids@) == all_ids(families@.take(i as int)),
            crate::text::texts(names@) == all_names(families@.take(i as int)),
            indexed(families@.take(i as int), files@) == Ok::<
                Seq<FamilyText>,
                crate::refusal::StopText,
            >(family_texts(out@)),
    {
        let family = &families[i];
        let ghost upto = families@.take(i + 1);
        assert(upto.drop_last() =~= families@.take(i as int));
        assert(upto.last() == *family);
        if family.id.as_str().is_empty() || holds(&ids, family.id.as_str()) {
            let mut message = "empty or duplicate family id: ".to_owned();
            message.append(family.id.as_str());
            proof {
                lemma_indexed_fails(families@, files@, i + 1);
            }
            return Err(Stop::Refused { message });
        }
        let ghost ids_before = ids@;
        ids.push(family.id.clone());
        assert(crate::text::texts(ids@) =~= crate::text::texts(ids_before).push(family.id@));
        assert(all_ids(upto) =~= all_ids(families@.take(i as int)).push(family.id@));
        if family.display_name.as_str().is_empty() || family.profiles.len() == 0 {
            let mut message = "family ".to_owned();
            message.append(family.id.as_str());
            message.append(" needs a display name and profiles");
            proof {
                lemma_indexed_fails(families@, files@, i + 1);
            }
            return Err(Stop::Refused { message });
        }
        match list_entries(&family.profiles, &mut names, files) {
            Ok(profiles) => {
                let ghost so_far = out@;
                let made = Family {
                    id: family.id.clone(),
                    display_name: family.display_name.clone(),
                    model_examples: copy_texts(&family.model_examples),
                    profiles,
                };
                out.push(made);
                assert(family_texts(out@) =~= family_texts(so_far).push(made@));
            },
            Err(stop) => {
                proof {
                    lemma_indexed_fails(families@, files@, i + 1);
                }
                return Err(stop);
            },
        }
    }
    assert(families@.take(families@.len() as int) =~= families@);
    Ok(Index { schema_version: 1, families: out })
}

/// The names of all profiles of a catalog, in order.
pub fn profile_names(catalog: &Catalog) -> (r: Vec<String>)
    ensures
        crate::text::texts(r@) == all_names(catalog.families@),
{
    let families = &catalog.families;
    let mut out: Vec<String> = Vec::new();
    assert(crate::text::texts(out@) =~= all_names(families@.take(0)));
    for i in 0..families.len()
        invariant
            *families == catalog.families,
            crate::text::texts(out@) == all_names(families@.take(i as int)),
    {
        assert(families@.take(i + 1).drop_last() =~= families@.take(i as int));
        let ghost before = out@;
        let mut more = copy_texts(&families[i].profiles);
        let ghost added = more@;
        out.append(&mut more);
        assert(crate::text::texts(out@) =~= crate::text::texts(before) + crate::text::texts(added));
    }
    assert(families@.take(families@.len() as int) =~= families@);
    out
}

/// The profile that a file deploys, where the file's name is that of a values
/// file.
pub open spec fn deployed_by(file: Seq<char>) -> Option<Seq<char>> {
    if crate::text::ends_in(file, ".values.yaml"@) {
        Some(file.take(file.len() - ".values.yaml"@.len()))
    } else {
        None
    }
}

/// The file deploys a profile that the catalog does not list. The values of a
/// mixed fleet are not a profile.
pub open spec fn is_unlisted(names: Seq<Seq<char>>, file: Seq<char>) -> bool {
    deployed_by(file) matches Some(name) && name != "MIXED-FLEET"@ && !names.contains(name)
}

/// Refuse a directory that has the values of a profile which is not listed,
/// naming the first.
pub fn verify_listed(names: &Vec<String>, files: &Vec<String>) -> (r: Result<(), Refusal>)
    ensures
        match r {
            Ok(_) => forall|i: int|
                0 <= i < files@.len() ==> !is_unlisted(
                    crate::text::texts(names@),
                    (#[trigger] files@[i])@,
                ),
            Err(refusal) => exists|i: int|
                {
                    &&& 0 <= i < files@.len()
                    &&& is_unlisted(crate::text::texts(names@), (#[trigger] files@[i])@)
                    &&& forall|j: int|
                        0 <= j < i ==> !is_unlisted(
                            crate::text::texts(names@),
                            (#[trigger] files@[j])@,
                        )
                    &&& refusal.message@ == "unlisted deployable profile: "@ + deployed_by(
                        files@[i]@,
                    )->0
                },
        },
{
    for i in 0..files.len()
        invariant
            forall|j: int|
                0 <= j < i ==> !is_unlisted(
                    crate::text::texts(names@),
                    (#[trigger] files@[j])@,
                ),
    {
        if let Some(name) = strip_suffix(files[i].as_str(), ".values.yaml") {
            if !same(name.as_str(), "MIXED-FLEET") && !holds(names, name.as_str()) {
                let mut message = "unlisted deployable profile: ".to_owned();
                message.append(name.as_str());
                assert(is_unlisted(crate::text::texts(names@), files@[i as int]@));
                return Err(Refusal { message });
            }
        }
    }
    Ok(())
}

/// Refuse an index file that is not what the catalog calls for.
pub fn verify_current(written: &str, output: &str) -> (r: Result<(), Refusal>)
    ensures
        match r {
            Ok(_) => written@ == output@,
            Err(refusal) => written@ != output@ && refusal.message@
                == "profiles/index.json is stale; run cargo run --manifest-path tools/profile-index/Cargo.toml"@,
        },
{
    if same(written, output) {
        return Ok(());
    }
    Err(
        Refusal {
            message:
                "profiles/index.json is stale; run cargo run --manifest-path tools/profile-index/Cargo.toml".to_owned(),
        },
    )
}

proof fn lemma_entries(
    names: Seq<Seq<char>>,
    taken: Seq<Seq<char>>,
    files: Map<Seq<char>, ValuesFile>,
)
    requires
        entries(names, taken, files) is Ok,
    ensures
        entries(names, taken, files)->Ok_0.len() == names.len(),
        forall|i: int|
            0 <= i < names.len() ==> {
                &&& is_name(#[trigger] names[i])
                &&& profile_text(names[i], file_of(files, names[i])) == Ok::<
                    ProfileText,
                    crate::refusal::StopText,
                >(entries(names, taken, files)->Ok_0[i])
            },
        taken.no_duplicates() ==> (taken + names).no_duplicates(),
    decreases names.len(),
{
    if names.len() > 0 {
        let front = names.drop_last();
        lemma_entries(front, taken, files);
        assert forall|i: int| 0 <= i < names.len() implies {
            &&& is_name(#[trigger] names[i])
            &&& profile_text(names[i], file_of(files, names[i])) == Ok::<
                ProfileText,
                crate::refusal::StopText,
            >(entries(names, taken, files)->Ok_0[i])
        } by {
            if i < front.len() {
                assert(front[i] == names[i]);
            }
        }
        if taken.no_duplicates() {
            let all = taken + names;
            let some = taken + front;
            assert forall|i: int, j: int|
                0 <= i < all.len() && 0 <= j < all.len() && i != j implies all[i] != all[j] by {
                if i < some.len() && j < some.len() {
                    assert(some[i] == all[i] && some[j] == all[j]);
                } else if i < some.len() {
                    assert(some[i] == all[i]);
                } else {
                    assert(some[j] == all[j]);
                }
            }
        }
    } else {
        assert(taken + names =~= taken);
    }
}

/// An index lists the catalog's families and their profiles as they stand
/// there, and each entry is what the profile's values file gives.
pub proof fn law_the_index_follows_the_catalog(
    families: Seq<FamilySource>,
    files: Map<Seq<char>, ValuesFile>,
    f: int,
    p: int,
)
    requires
        indexed(families, files) is Ok,
        0 <= f < families.len(),
        0 <= p < families[f].profiles@.len(),
    ensures
        indexed(families, files)->Ok_0.len() == families.len(),
        ({
            let listed = indexed(families, files)->Ok_0[f];
            let name = families[f].profiles@[p]@;
            &&& listed.id == families[f].id@
            &&& listed.display_name == families[f].display_name@
            &&& listed.model_examples == crate::text::texts(families[f].model_examples@)
            &&& listed.profiles.len() == families[f].profiles@.len()
            &&& profile_text(name, file_of(files, name)) == Ok::<
                ProfileText,
                crate::refusal::StopText,
            >(listed.profiles[p])
            &&& listed.profiles[p].name == name
        }),
    decreases families.len(),
{
    let front = families.drop_last();
    if f < front.len() {
        assert(front[f] == families[f]);
        law_the_index_follows_the_catalog(front, files, f, p);
    } else {
        let family = families.last();
        let names = crate::text::texts(family.profiles@);
        lemma_entries(names, all_names(front), files);
        assert(names[p] == family.profiles@[p]@);
        lemma_indexed_len(front, files);
    }
}

proof fn lemma_indexed_len(families: Seq<FamilySource>, files: Map<Seq<char>, ValuesFile>)
    requires
        indexed(families, files) is Ok,
    ensures
        indexed(families, files)->Ok_0.len() == families.len(),
    decreases families.len(),
{
    if families.len() > 0 {
        lemma_indexed_len(families.drop_last(), files);
    }
}

/// No profile and no family stands in an index twice.
pub proof fn law_nothing_is_indexed_twice(
    families: Seq<FamilySource>,
    files: Map<Seq<char>, ValuesFile>,
)
    requires
        indexed(families, files) is Ok,
    ensures
        all_names(families).no_duplicates(),
        all_ids(families).no_duplicates(),
    decreases families.len(),
{
    if families.len() > 0 {
        let front = families.drop_last();
        let family = families.last();
        law_nothing_is_indexed_twice(front, files);
        lemma_entries(crate::text::texts(family.profiles@), all_names(front), files);
        assert forall|i: int, j: int|
            0 <= i < families.len() && 0 <= j < families.len() && i != j implies all_ids(
            families,
        )[i] != all_ids(families)[j] by {
            assert(all_ids(front).len() == front.len());
            if i < front.len() && j < front.len() {
                assert(all_ids(front)[i] == all_ids(families)[i]);
                assert(all_ids(front)[j] == all_ids(families)[j]);
            } else if i < front.len() {
                assert(all_ids(front)[i] == all_ids(families)[i]);
            } else {
                assert(all_ids(front)[j] == all_ids(families)[j]);
            }
        }
    }
}

/// Every profile in an index can be deployed: its file holds it alone, it is
/// enabled, and its mode is one.
pub proof fn law_an_indexed_profile_can_be_deployed(
    name: Seq<char>,
    file: ValuesFile,
    entry: ProfileText,
)
    requires
        profile_text(name, file) == Ok::<ProfileText, crate::refusal::StopText>(entry),
    ensures
        entry.name == name,
        entry.values_file == values_path(name),
        names_mode(entry.cc_mode),
        file matches ValuesFile::Profiles(profiles) && profiles@.len() == 1 && profiles@[0].0@
            == name && bool_at(profiles@[0].1, "enabled"@) == Some(true),
{
}

/// The name of a profile is made of ASCII letters, digits and dashes, and is not
/// empty; its values file is named after it.
pub proof fn law_a_profile_name_is_plain(name: Seq<char>)
    ensures
        is_name(name) <==> name.len() > 0 && forall|i: int|
            0 <= i < name.len() ==> {
                ||| 'a' <= #[trigger] name[i] <= 'z'
                ||| 'A' <= name[i] <= 'Z'
                ||| '0' <= name[i] <= '9'
                ||| name[i] == '-'
            },
        values_path(name) == "profiles/"@ + name + ".values.yaml"@,
{
    if is_name(name) {
        assert forall|i: int| 0 <= i < name.len() implies {
            ||| 'a' <= #[trigger] name[i] <= 'z'
            ||| 'A' <= name[i] <= 'Z'
            ||| '0' <= name[i] <= '9'
            ||| name[i] == '-'
        } by {
            assert(name_char(name[i]));
        }
    }
}

/// A profile can be deployed exactly where it is enabled and its mode is off, on,
/// devtools or ppcie.
pub proof fn law_a_usable_profile_has_one_of_four_modes(
    enabled: Option<bool>,
    cc_mode: Option<Seq<char>>,
)
    ensures
        is_usable(enabled, cc_mode) <==> enabled == Some(true) && (cc_mode == Some("off"@)
            || cc_mode == Some("on"@) || cc_mode == Some("devtools"@) || cc_mode == Some("ppcie"@)),
{
    assert(Mode::Off.text() == "off"@);
    assert(Mode::On.text() == "on"@);
    assert(Mode::DevTools.text() == "devtools"@);
    assert(Mode::Ppcie.text() == "ppcie"@);
    if is_usable(enabled, cc_mode) {
        let mode = choose|mode: Mode| #[trigger] mode.text() == cc_mode->0;
        assert(mode == Mode::Off || mode == Mode::On || mode == Mode::DevTools || mode
            == Mode::Ppcie);
    }
}

/// Bytes are written one after the other, each as two hexadecimal digits.
pub proof fn law_bytes_are_written_two_digits_each(a: Seq<u8>, b: Seq<u8>, byte: u8)
    ensures
        hex_bytes(Seq::empty()) == Seq::<char>::empty(),
        hex_bytes(a + b) == hex_bytes(a) + hex_bytes(b),
        hex_bytes(seq![byte]) == seq![
            "0123456789abcdef"@[byte as int / 16],
            "0123456789abcdef"@[byte as int % 16],
        ],
    decreases b.len(),
{
    reveal_with_fuel(hex_bytes, 2);
    let one = seq![byte];
    let high = (byte as int / 16) as nat;
    let low = (byte as int % 16) as nat;
    assert(one.drop_last() =~= Seq::<u8>::empty());
    crate::numeral::law_hexadecimal_is_written_digit_by_digit(high, low, 1);
    crate::numeral::law_hexadecimal_is_written_digit_by_digit(0, high, 1);
    assert(16 * high + low == byte);
    assert(hex_bytes(one) =~= seq![
        "0123456789abcdef"@[byte as int / 16],
        "0123456789abcdef"@[byte as int % 16],
    ]);
    if b.len() == 0 {
        assert(a + b =~= a);
        assert(hex_bytes(a + b) =~= hex_bytes(a) + hex_bytes(b));
    } else {
        assert((a + b).drop_last() =~= a + b.drop_last());
        law_bytes_are_written_two_digits_each(a, b.drop_last(), byte);
        assert(hex_bytes(a + b) =~= hex_bytes(a) + hex_bytes(b));
    }
}

/// A profile gets an entry exactly where its values file holds it alone and under
/// its own name, it is enabled, its mode is one of the four, and its values can be
/// written down. The entry has its name, its mode, its file, and the digest of
/// its values.
pub proof fn law_a_profile_gets_an_entry(name: Seq<char>, file: ValuesFile)
    ensures
        profile_text(name, file) is Ok <==> {
            &&& file matches ValuesFile::Profiles(profiles)
            &&& profiles@.len() == 1
            &&& profiles@[0].0@ == name
            &&& bool_members(profiles@[0].1).contains_pair("enabled"@, true)
            &&& str_members(profiles@[0].1).contains_pair("ccMode"@, "off"@) || str_members(
                profiles@[0].1,
            ).contains_pair("ccMode"@, "on"@) || str_members(profiles@[0].1).contains_pair(
                "ccMode"@,
                "devtools"@,
            ) || str_members(profiles@[0].1).contains_pair("ccMode"@, "ppcie"@)
            &&& json_bytes(profiles@[0].1) is Some
        },
        profile_text(name, file) matches Ok(entry) ==> {
            let value = file->Profiles_0@[0].1;
            &&& entry.name == name
            &&& entry.cc_mode == str_members(value)["ccMode"@]
            &&& entry.values_file == "profiles/"@ + name + ".values.yaml"@
            &&& entry.values_sha256 == hex_bytes(sha256(json_bytes(value)->0))
        },
{
    if let ValuesFile::Profiles(profiles) = file {
        if profiles@.len() == 1 {
            let value = profiles@[0].1;
            law_a_usable_profile_has_one_of_four_modes(
                bool_at(value, "enabled"@),
                str_at(value, "ccMode"@),
            );
        }
    }
}

/// Why a profile gets no entry, the first of these that holds: its values file
/// cannot be read, or not be parsed, holds more or less than one profile, holds
/// another one, or a profile that is disabled or has no mode.
pub proof fn law_a_profile_without_an_entry_is_told_why(name: Seq<char>, file: ValuesFile)
    ensures
        ({
            let path = "profiles/"@ + name + ".values.yaml"@;
            let told = profile_text(name, file);
            match file {
                ValuesFile::Unreadable => told == Err::<ProfileText, crate::refusal::StopText>(
                    crate::refusal::StopText::Failed { context: Some("read "@ + path) },
                ),
                ValuesFile::Unparsable => told == Err::<ProfileText, crate::refusal::StopText>(
                    crate::refusal::StopText::Failed { context: Some("parse "@ + path) },
                ),
                ValuesFile::Profiles(profiles) => {
                    &&& profiles@.len() != 1 ==> told == Err::<
                        ProfileText,
                        crate::refusal::StopText,
                    >(
                        crate::refusal::StopText::Refused {
                            message: path + " must contain one profile"@,
                        },
                    )
                    &&& profiles@.len() == 1 && profiles@[0].0@ != name ==> told == Err::<
                        ProfileText,
                        crate::refusal::StopText,
                    >(
                        crate::refusal::StopText::Refused {
                            message: path + (" must contain profiles."@ + name),
                        },
                    )
                    &&& profiles@.len() == 1 && profiles@[0].0@ == name && !is_usable(
                        bool_at(profiles@[0].1, "enabled"@),
                        str_at(profiles@[0].1, "ccMode"@),
                    ) ==> told == Err::<ProfileText, crate::refusal::StopText>(
                        crate::refusal::StopText::Refused {
                            message: path + " has a disabled profile or invalid ccMode"@,
                        },
                    )
                },
            }
        }),
{
}

/// A file deploys a profile exactly where it is named after one, and is unlisted
/// where that is neither in the catalog nor the mixed fleet.
pub proof fn law_a_values_file_is_named_after_its_profile(
    names: Seq<Seq<char>>,
    name: Seq<char>,
    file: Seq<char>,
)
    ensures
        deployed_by(name + ".values.yaml"@) == Some(name),
        deployed_by(file) matches Some(deployed) ==> file == deployed + ".values.yaml"@,
        is_unlisted(names, name + ".values.yaml"@) <==> name != "MIXED-FLEET"@ && !names.contains(
            name,
        ),
        is_unlisted(names, file) ==> exists|deployed: Seq<char>|
            file == #[trigger] (deployed + ".values.yaml"@),
{
    crate::text::law_an_ending_follows_a_stem(file, name, ".values.yaml"@);
    if is_unlisted(names, file) {
        let deployed = deployed_by(file)->0;
        assert(file == deployed + ".values.yaml"@);
    }
}

/// The names of the profiles are those of each family in turn.
pub proof fn law_the_names_are_those_of_every_family(
    a: Seq<FamilySource>,
    b: Seq<FamilySource>,
    family: FamilySource,
)
    ensures
        all_names(a + b) == all_names(a) + all_names(b),
        all_names(seq![family]) == crate::text::texts(family.profiles@),
        all_ids(a).len() == a.len(),
        forall|i: int| 0 <= i < a.len() ==> #[trigger] all_ids(a)[i] == a[i].id@,
    decreases b.len(),
{
    reveal_with_fuel(all_names, 2);
    let one = seq![family];
    assert(one.drop_last() =~= Seq::<FamilySource>::empty());
    assert(all_names(one) =~= crate::text::texts(family.profiles@));
    if b.len() == 0 {
        assert(a + b =~= a);
        assert(all_names(a + b) =~= all_names(a) + all_names(b));
    } else {
        assert((a + b).drop_last() =~= a + b.drop_last());
        law_the_names_are_those_of_every_family(a, b.drop_last(), family);
        assert(all_names(a + b) =~= all_names(a) + all_names(b));
    }
}

proof fn lemma_entries_ok(
    names: Seq<Seq<char>>,
    taken: Seq<Seq<char>>,
    files: Map<Seq<char>, ValuesFile>,
)
    requires
        (taken + names).no_duplicates(),
        forall|i: int|
            0 <= i < names.len() ==> is_name(#[trigger] names[i]) && profile_text(
                names[i],
                file_of(files, names[i]),
            ) is Ok,
    ensures
        entries(names, taken, files) is Ok,
    decreases names.len(),
{
    if names.len() > 0 {
        let front = names.drop_last();
        let all = taken + names;
        let some = taken + front;
        let last = all.len() - 1;
        assert forall|i: int, j: int|
            0 <= i < some.len() && 0 <= j < some.len() && i != j implies some[i] != some[j] by {
            assert(all[i] == some[i] && all[j] == some[j]);
        }
        assert forall|i: int| 0 <= i < front.len() implies is_name(#[trigger] front[i])
            && profile_text(front[i], file_of(files, front[i])) is Ok by {
            assert(front[i] == names[i]);
        }
        lemma_entries_ok(front, taken, files);
        assert(all[last] == names.last());
        assert(names[names.len() - 1] == names.last());
        if some.contains(names.last()) {
            let k = choose|k: int| 0 <= k < some.len() && some[k] == names.last();
            assert(all[k] == all[last]);
        }
    }
}

proof fn lemma_no_duplicates_front<A>(a: Seq<A>, b: Seq<A>)
    requires
        (a + b).no_duplicates(),
    ensures
        a.no_duplicates(),
{
    assert forall|i: int, j: int| 0 <= i < a.len() && 0 <= j < a.len() && i != j implies a[i]
        != a[j] by {
        assert((a + b)[i] == a[i] && (a + b)[j] == a[j]);
    }
}

/// A catalog of the known schema is indexed exactly where every family has an id
/// of its own, a display name and profiles, every profile has a name of its own
/// that is one, and its values file gives it an entry.
pub proof fn law_a_catalog_in_order_is_indexed(
    catalog: Catalog,
    files: Map<Seq<char>, ValuesFile>,
)
    ensures
        index_text(catalog, files) is Ok <==> {
            let families = catalog.families@;
            &&& catalog.schema_version == 1
            &&& all_ids(families).no_duplicates()
            &&& all_names(families).no_duplicates()
            &&& forall|f: int|
                0 <= f < families.len() ==> {
                    &&& (#[trigger] families[f]).id@.len() > 0
                    &&& families[f].display_name@.len() > 0
                    &&& families[f].profiles@.len() > 0
                    &&& forall|p: int|
                        0 <= p < families[f].profiles@.len() ==> is_name(
                            (#[trigger] families[f].profiles@[p])@,
                        ) && profile_text(
                            families[f].profiles@[p]@,
                            file_of(files, families[f].profiles@[p]@),
                        ) is Ok
                }
        },
        catalog.schema_version != 1 ==> index_text(catalog, files) == Err::<
            Seq<FamilyText>,
            crate::refusal::StopText,
        >(crate::refusal::StopText::Refused { message: "unsupported catalog schema"@ }),
{
    let families = catalog.families@;
    if indexed(families, files) is Ok {
        law_nothing_is_indexed_twice(families, files);
        lemma_families_in_order(families, files);
    }
    if all_ids(families).no_duplicates() && all_names(families).no_duplicates()
        && families_in_order(families, files) {
        lemma_indexed_ok(families, files);
    }
}

/// Each family is in order by itself.
spec fn families_in_order(families: Seq<FamilySource>, files: Map<Seq<char>, ValuesFile>) -> bool {
    forall|f: int|
        0 <= f < families.len() ==> {
            &&& (#[trigger] families[f]).id@.len() > 0
            &&& families[f].display_name@.len() > 0
            &&& families[f].profiles@.len() > 0
            &&& forall|p: int|
                0 <= p < families[f].profiles@.len() ==> is_name(
                    (#[trigger] families[f].profiles@[p])@,
                ) && profile_text(
                    families[f].profiles@[p]@,
                    file_of(files, families[f].profiles@[p]@),
                ) is Ok
        }
}

proof fn lemma_families_in_order(families: Seq<FamilySource>, files: Map<Seq<char>, ValuesFile>)
    requires
        indexed(families, files) is Ok,
    ensures
        families_in_order(families, files),
    decreases families.len(),
{
    if families.len() > 0 {
        let front = families.drop_last();
        let last = families.last();
        lemma_families_in_order(front, files);
        let names = crate::text::texts(last.profiles@);
        lemma_entries(names, all_names(front), files);
        assert forall|f: int| 0 <= f < families.len() implies {
            &&& (#[trigger] families[f]).id@.len() > 0
            &&& families[f].display_name@.len() > 0
            &&& families[f].profiles@.len() > 0
            &&& forall|p: int|
                0 <= p < families[f].profiles@.len() ==> is_name(
                    (#[trigger] families[f].profiles@[p])@,
                ) && profile_text(
                    families[f].profiles@[p]@,
                    file_of(files, families[f].profiles@[p]@),
                ) is Ok
        } by {
            if f < front.len() {
                assert(front[f] == families[f]);
            } else {
                assert forall|p: int| 0 <= p < last.profiles@.len() implies is_name(
                    (#[trigger] last.profiles@[p])@,
                ) && profile_text(last.profiles@[p]@, file_of(files, last.profiles@[p]@)) is Ok by {
                    assert(names[p] == last.profiles@[p]@);
                }
            }
        }
    }
}

proof fn lemma_indexed_ok(families: Seq<FamilySource>, files: Map<Seq<char>, ValuesFile>)
    requires
        all_ids(families).no_duplicates(),
        all_names(families).no_duplicates(),
        families_in_order(families, files),
    ensures
        indexed(families, files) is Ok,
    decreases families.len(),
{
    if families.len() > 0 {
        let front = families.drop_last();
        let last = families.last();
        let n = front.len() as int;
        let names = crate::text::texts(last.profiles@);
        lemma_no_duplicates_front(all_names(front), names);
        assert forall|i: int, j: int|
            0 <= i < all_ids(front).len() && 0 <= j < all_ids(front).len() && i
                != j implies all_ids(front)[i] != all_ids(front)[j] by {
            assert(all_ids(front)[i] == all_ids(families)[i]);
            assert(all_ids(front)[j] == all_ids(families)[j]);
        }
        assert forall|f: int| 0 <= f < front.len() implies {
            &&& (#[trigger] front[f]).id@.len() > 0
            &&& front[f].display_name@.len() > 0
            &&& front[f].profiles@.len() > 0
            &&& forall|p: int|
                0 <= p < front[f].profiles@.len() ==> is_name((#[trigger] front[f].profiles@[p])@)
                    && profile_text(
                    front[f].profiles@[p]@,
                    file_of(files, front[f].profiles@[p]@),
                ) is Ok
        } by {
            assert(front[f] == families[f]);
        }
        lemma_indexed_ok(front, files);
        assert(families[n] == last);
        assert forall|p: int| 0 <= p < names.len() implies is_name(#[trigger] names[p])
            && profile_text(names[p], file_of(files, names[p])) is Ok by {
            assert(names[p] == families[n].profiles@[p]@);
        }
        lemma_entries_ok(names, all_names(front), files);
        if all_ids(front).contains(last.id@) {
            let k = choose|k: int|
                0 <= k < all_ids(front).len() && all_ids(front)[k] == last.id@;
            assert(all_ids(families)[k] == all_ids(families)[n]);
        }
    }
}

/// What is told of a catalog that is out of order is the first thing wrong with
/// it: families are judged in their order, whatever follows them, and so are the
/// profiles of a family.
pub proof fn law_the_first_thing_wrong_is_told(
    families: Seq<FamilySource>,
    files: Map<Seq<char>, ValuesFile>,
    k: int,
)
    requires
        0 <= k < families.len(),
        indexed(families.take(k), files) is Ok,
    ensures
        ({
            let family = families[k];
            let told = indexed(families, files);
            let ids = all_ids(families.take(k));
            &&& family.id@.len() == 0 || ids.contains(family.id@) ==> told == Err::<
                Seq<FamilyText>,
                crate::refusal::StopText,
            >(
                crate::refusal::StopText::Refused {
                    message: "empty or duplicate family id: "@ + family.id@,
                },
            )
            &&& family.id@.len() > 0 && !ids.contains(family.id@) && (family.display_name@.len()
                == 0 || family.profiles@.len() == 0) ==> told == Err::<
                Seq<FamilyText>,
                crate::refusal::StopText,
            >(
                crate::refusal::StopText::Refused {
                    message: "family "@ + family.id@ + " needs a display name and profiles"@,
                },
            )
        }),
{
    let upto = families.take(k + 1);
    assert(upto.drop_last() =~= families.take(k));
    assert(upto.last() == families[k]);
    if indexed(upto, files) is Err {
        lemma_indexed_fails(families, files, k + 1);
    }
}

/// The same among the profiles of a family: the first name that is none, or is
/// taken, or whose values file gives no entry, is what is told.
pub proof fn law_the_first_profile_out_of_order_is_told(
    names: Seq<Seq<char>>,
    taken: Seq<Seq<char>>,
    files: Map<Seq<char>, ValuesFile>,
    k: int,
)
    requires
        0 <= k < names.len(),
        entries(names.take(k), taken, files) is Ok,
    ensures
        ({
            let told = entries(names, taken, files);
            let name = names[k];
            let bad = !is_name(name) || (taken + names.take(k)).contains(name);
            &&& bad ==> told == Err::<Seq<ProfileText>, crate::refusal::StopText>(
                crate::refusal::StopText::Refused {
                    message: "invalid or duplicate profile name: "@ + name,
                },
            )
            &&& !bad && files.contains_key(name) && profile_text(name, files[name]) is Err
                ==> told == Err::<Seq<ProfileText>, crate::refusal::StopText>(
                profile_text(name, files[name])->Err_0,
            )
            &&& !bad && !files.contains_key(name) ==> told == Err::<
                Seq<ProfileText>,
                crate::refusal::StopText,
            >(
                crate::refusal::StopText::Failed {
                    context: Some("read "@ + ("profiles/"@ + name + ".values.yaml"@)),
                },
            )
        }),
{
    let upto = names.take(k + 1);
    assert(upto.drop_last() =~= names.take(k));
    assert(upto.last() == names[k]);
    if entries(upto, taken, files) is Err {
        lemma_entries_fail(names, taken, files, k + 1);
    }
}

/// A profile is judged by its own values file, and by none where there is none.
/// Entries and families as text are what they hold, one for one.
pub proof fn law_a_profile_is_judged_by_its_own_file(
    files: Map<Seq<char>, ValuesFile>,
    name: Seq<char>,
    profiles: Seq<Profile>,
    families: Seq<Family>,
)
    ensures
        files.contains_key(name) ==> file_of(files, name) == files[name],
        !files.contains_key(name) ==> file_of(files, name) == ValuesFile::Unreadable,
        profile_texts(profiles).len() == profiles.len(),
        forall|i: int|
            0 <= i < profiles.len() ==> (#[trigger] profile_texts(profiles)[i]).name
                == profiles[i].name@ && profile_texts(profiles)[i].cc_mode == profiles[i].cc_mode@
                && profile_texts(profiles)[i].values_file == profiles[i].values_file@
                && profile_texts(profiles)[i].values_sha256 == profiles[i].values_sha256@,
        family_texts(families).len() == families.len(),
        forall|i: int|
            0 <= i < families.len() ==> (#[trigger] family_texts(families)[i]).id
                == families[i].id@ && family_texts(families)[i].display_name
                == families[i].display_name@ && family_texts(families)[i].model_examples
                == crate::text::texts(families[i].model_examples@) && family_texts(
                families,
            )[i].profiles == profile_texts(families[i].profiles@),
{
}

} // verus!

//! The ledger of forms and of the submissions posted to them, each
//! submission kept sealed under its form's key and refused when repeated.
use vstd::prelude::*;

use crate::encoding::{bytes_equal, hex_encode, spec_hex};
use crate::form::Form;
use crate::sealing::{
    bytes_view, nonce_for, nonce_of, open, opens_sealing, seal, sealable, sealed, KEY_LEN, MAX_SEALABLE_LEN, TAG_LEN,
};
use crate::text_map::{keys_distinct, lemma_pairs_to_map, lemma_pairs_to_map_from, pairs_to_map, TextMap};

verus! {

/// One submission to a form: the JSON text of the submitted object.
pub type Submission = Vec<u8>;

/// Why a ledger operation failed.
#[derive(Debug)]
pub enum FormChainError {
    InternalSystemError(String),
    KeyNotExist,
    DuplicateEntry,
}

impl FormChainError {
    /// The text that describes the error.
    pub open spec fn spec_message(&self) -> Seq<char> {
        match self {
            FormChainError::InternalSystemError(m) => "Internal System Error:"@ + m@,
            FormChainError::KeyNotExist => "Key does not exist"@,
            FormChainError::DuplicateEntry => "Entry already submitted"@,
        }
    }

    /// The text that describes the error.
    pub fn to_string(&self) -> (s: String)
        ensures
            s@ == self.spec_message(),
    {
        match self {
            FormChainError::InternalSystemError(m) => {
                let mut s = String::from_str("Internal System Error:");
                s.append(m.as_str());
                s
            },
            FormChainError::KeyNotExist => String::from_str("Key does not exist"),
            FormChainError::DuplicateEntry => String::from_str("Entry already submitted"),
        }
    }
}

/// What a ledger holds: each form by its id with its key, and the
/// submissions posted to each form, oldest first, as they were submitted.
pub struct LedgerView {
    pub forms: Map<Seq<char>, Form>,
    pub keys: Map<Seq<char>, Seq<u8>>,
    pub entries: Map<Seq<char>, Seq<Seq<u8>>>,
}

impl LedgerView {
    /// Whether a form has the id `id`.
    pub open spec fn has_form(self, id: Seq<char>) -> bool {
        self.forms.contains_key(id)
    }

    /// The submissions posted to the form `id`, oldest first.
    pub open spec fn entries_of(self, id: Seq<char>) -> Seq<Seq<u8>> {
        if self.entries.contains_key(id) {
            self.entries[id]
        } else {
            Seq::empty()
        }
    }

    /// Whether the form `id` takes `entry`: the form exists, the same
    /// submission is not already stored for it, and it can be sealed.
    pub open spec fn accepts_entry(self, id: Seq<char>, entry: Seq<u8>) -> bool {
        &&& self.has_form(id)
        &&& !self.entries_of(id).contains(entry)
        &&& sealable(entry.len())
    }

    /// The ledger after `entry` is posted to the form `id`.
    pub open spec fn with_entry(self, id: Seq<char>, entry: Seq<u8>) -> LedgerView {
        LedgerView {
            forms: self.forms,
            keys: self.keys,
            entries: self.entries.insert(id, self.entries_of(id).push(entry)),
        }
    }

    /// The ledger after the form `form` is registered under `id` with `key`.
    pub open spec fn with_form(self, id: Seq<char>, form: Form, key: Seq<u8>) -> LedgerView {
        LedgerView { forms: self.forms.insert(id, form), keys: self.keys.insert(id, key), entries: self.entries }
    }

    /// Every form that has submissions is a registered form.
    pub open spec fn entries_registered(self) -> bool {
        forall|id: Seq<char>| #[trigger] self.entries.contains_key(id) ==> self.forms.contains_key(id)
    }
}

/// The message of the error with which posting `entry` to the form `id`
/// is refused.
pub open spec fn refusal_message(v: LedgerView, id: Seq<char>, entry: Seq<u8>) -> Seq<char> {
    if !v.has_form(id) {
        "Key does not exist"@
    } else if v.entries_of(id).contains(entry) {
        "Entry already submitted"@
    } else {
        "Internal System Error:"@ + "Submission could not be sealed"@
    }
}

/// Whether `list` holds sealings, under the key of the form `id` in `forms`
/// and the nonces of its positions, of plaintexts that can be sealed.
pub open spec fn list_opens(forms: Map<Seq<char>, (Form, Vec<u8>)>, id: Seq<char>, list: Seq<Vec<u8>>) -> bool {
    &&& forms.contains_key(id)
    &&& forall|j: int| 0 <= j < list.len() ==> #[trigger] opens_at(forms[id].1@, j, list[j]@)
}

/// Whether `bytes` is the sealing, under `key` and the `j`-th nonce, of a
/// plaintext that can be sealed.
pub open spec fn opens_at(key: Seq<u8>, j: int, bytes: Seq<u8>) -> bool {
    &&& bytes.len() <= MAX_SEALABLE_LEN + TAG_LEN
    &&& exists|p: Seq<u8>| sealable(p.len()) && #[trigger] sealed(key, nonce_of(j as nat), p) == bytes
}

/// A list whose byte strings are sealings of known plaintexts opens.
proof fn lemma_list_opens(
    forms: Map<Seq<char>, (Form, Vec<u8>)>,
    id: Seq<char>,
    list: Seq<Vec<u8>>,
    opened: Seq<Seq<u8>>,
)
    requires
        forms.contains_key(id),
        opened.len() == list.len(),
        forall|t: int|
            0 <= t < list.len() ==> #[trigger] list[t]@ == sealed(forms[id].1@, nonce_of(t as nat), opened[t])
                && sealable(opened[t].len()) && list[t]@.len() == opened[t].len() + TAG_LEN,
    ensures
        list_opens(forms, id, list),
{
    assert forall|j: int| 0 <= j < list.len() implies #[trigger] opens_at(forms[id].1@, j, list[j]@) by {
        let p = opened[j];
        assert(list[j]@ == sealed(forms[id].1@, nonce_of(j as nat), opened[j]));
        assert(sealable(opened[j].len()));
        assert(list[j]@.len() == opened[j].len() + TAG_LEN);
        assert(sealed(forms[id].1@, nonce_of(j as nat), p) == list[j]@);
    }
}

/// Whether stored forms and submission lists make a ledger: every key is
/// 32 bytes, and every submission list belongs to a form and holds sealings
/// under that form's key.
pub open spec fn parts_valid(forms: Seq<(String, (Form, Vec<u8>))>, entries: Seq<(String, Vec<Vec<u8>>)>) -> bool {
    &&& forall|i: int| 0 <= i < forms.len() ==> (#[trigger] forms[i]).1.1@.len() == KEY_LEN
    &&& forall|i: int|
        0 <= i < entries.len() ==> list_opens(pairs_to_map(forms), (#[trigger] entries[i]).0@, entries[i].1@)
}

/// Whether `forms` and `entries` are the parts of the ledger `l`: its forms
/// with their keys, and its stored byte strings.
pub open spec fn parts_of(
    l: Ledger,
    forms: Seq<(String, (Form, Vec<u8>))>,
    entries: Seq<(String, Vec<Vec<u8>>)>,
) -> bool {
    &&& pairs_to_map(forms).map_values(|x: (Form, Vec<u8>)| x.0) == l@.forms
    &&& pairs_to_map(forms).map_values(|x: (Form, Vec<u8>)| x.1@) == l@.keys
    &&& pairs_to_map(entries).map_values(|v: Vec<Vec<u8>>| byte_strings(v@)) == l.stored()
}

/// Whether the ledger `l` was restored from `forms` and `entries`: it is
/// consistent, holds their forms, keys and stored byte strings, and each of
/// its submissions is what the stored byte string opens to.
pub open spec fn restored_from(
    l: Ledger,
    forms: Seq<(String, (Form, Vec<u8>))>,
    entries: Seq<(String, Vec<Vec<u8>>)>,
) -> bool {
    &&& l.wf()
    &&& parts_of(l, forms, entries)
    &&& seals(l@, l.stored())
    &&& opened_from(l@, l.stored())
}

/// The stored byte strings of a form, oldest first.
pub open spec fn stored_of(stored: Map<Seq<char>, Seq<Seq<u8>>>, id: Seq<char>) -> Seq<Seq<u8>> {
    if stored.contains_key(id) {
        stored[id]
    } else {
        Seq::empty()
    }
}

/// What is stored for each form is the sealing of each of its submissions,
/// the `i`-th under the form's key and the `i`-th nonce.
pub open spec fn seals(v: LedgerView, stored: Map<Seq<char>, Seq<Seq<u8>>>) -> bool {
    &&& forall|id: Seq<char>| #[trigger] stored.contains_key(id) <==> v.entries.contains_key(id)
    &&& forall|id: Seq<char>| #[trigger] stored.contains_key(id) ==> stored[id].len() == v.entries[id].len()
    &&& forall|id: Seq<char>, i: int|
        #![trigger stored[id][i]]
        stored.contains_key(id) && 0 <= i < stored[id].len() ==> stored[id][i] == sealed(
            v.keys[id],
            nonce_of(i as nat),
            v.entries[id][i],
        ) && sealable(v.entries[id][i].len()) && stored[id][i].len() == v.entries[id][i].len() + TAG_LEN
}

/// Each submission is the only plaintext that can be sealed whose sealing,
/// under its form's key and its nonce, is the stored byte string.
pub open spec fn opened_from(v: LedgerView, stored: Map<Seq<char>, Seq<Seq<u8>>>) -> bool {
    forall|id: Seq<char>, i: int, p: Seq<u8>|
        #![trigger stored[id][i], sealed(v.keys[id], nonce_of(i as nat), p)]
        stored.contains_key(id) && 0 <= i < stored[id].len() && sealable(p.len()) && stored[id][i] == sealed(
            v.keys[id],
            nonce_of(i as nat),
            p,
        ) ==> v.entries[id][i] == p
}

/// The byte strings that a vector of byte vectors holds.
pub open spec fn byte_strings(v: Seq<Vec<u8>>) -> Seq<Seq<u8>> {
    v.map_values(|c: Vec<u8>| c@)
}

/// The id that `create_form` gives a form created with the random bytes
/// `rnd`: their lowercase hexadecimal text.
pub open spec fn form_id_of(rnd: Seq<u8>) -> Seq<char> {
    spec_hex(rnd)
}

/// The forms and their submissions.
pub struct Ledger {
    forms: TextMap<(Form, Vec<u8>)>,
    entries: TextMap<Vec<Vec<u8>>>,
    plain: Ghost<Map<Seq<char>, Seq<Seq<u8>>>>,
}

impl View for Ledger {
    type V = LedgerView;

    closed spec fn view(&self) -> LedgerView {
        LedgerView {
            forms: self.forms@.map_values(|r: (Form, Vec<u8>)| r.0),
            keys: self.forms@.map_values(|r: (Form, Vec<u8>)| r.1@),
            entries: self.plain@,
        }
    }
}

impl Ledger {
    /// What the ledger stores for each form: the sealed submissions.
    pub closed spec fn stored(&self) -> Map<Seq<char>, Seq<Seq<u8>>> {
        self.entries@.map_values(|l: Vec<Vec<u8>>| byte_strings(l@))
    }

    /// The ledger's internal consistency.
    pub closed spec fn wf(&self) -> bool {
        &&& self.forms.wf()
        &&& self.entries.wf()
        &&& self@.entries_registered()
        &&& forall|id: Seq<char>| #[trigger] self.forms@.contains_key(id) ==> self.forms@[id].1@.len() == KEY_LEN
        &&& seals(self@, self.stored())
    }

    /// An empty ledger.
    pub fn new() -> (l: Ledger)
        ensures
            l.wf(),
            l@.forms == Map::<Seq<char>, Form>::empty(),
            l@.keys == Map::<Seq<char>, Seq<u8>>::empty(),
            l@.entries == Map::<Seq<char>, Seq<Seq<u8>>>::empty(),
            l.stored() == Map::<Seq<char>, Seq<Seq<u8>>>::empty(),
            l@.entries_registered(),
    {
        let l = Ledger { forms: TextMap::new(), entries: TextMap::new(), plain: Ghost(Map::empty()) };
        assert(l@.forms =~= Map::<Seq<char>, Form>::empty());
        assert(l@.keys =~= Map::<Seq<char>, Seq<u8>>::empty());
        assert(l.stored() =~= Map::<Seq<char>, Seq<Seq<u8>>>::empty());
        l
    }

    /// Whether `submission` is among the plaintexts sealed in `list`.
    fn holds_submission(key: &Vec<u8>, list: &Vec<Vec<u8>>, submission: &Vec<u8>, Ghost(plain): Ghost<Seq<Seq<u8>>>) -> (r: bool)
        requires
            key@.len() == KEY_LEN,
            list@.len() == plain.len(),
            forall|i: int| 0 <= i < list@.len() ==> #[trigger] list@[i]@ == sealed(key@, nonce_of(i as nat), plain[i])
                && sealable(plain[i].len()) && list@[i]@.len() == plain[i].len() + TAG_LEN,
        ensures
            r == plain.contains(submission@),
    {
        let mut i: usize = 0;
        while i < list.len()
            invariant
                key@.len() == KEY_LEN,
                list@.len() == plain.len(),
                forall|i: int| 0 <= i < list@.len() ==> #[trigger] list@[i]@ == sealed(key@, nonce_of(i as nat), plain[i])
                    && sealable(plain[i].len()) && list@[i]@.len() == plain[i].len() + TAG_LEN,
                i <= list@.len(),
                forall|j: int| 0 <= j < i ==> plain[j] != submission@,
            decreases list@.len() - i,
        {
            let nonce = nonce_for(i);
            let opened = open(key.as_slice(), nonce.as_slice(), list[i].as_slice());
            proof {
                assert(list@[i as int]@ == sealed(key@, nonce_of(i as nat), plain[i as int]));
                assert(opens_sealing(key@, nonce@, list@[i as int]@, bytes_view(opened)));
            }
            match opened {
                Some(v) => {
                    if bytes_equal(v.as_slice(), submission.as_slice()) {
                        return true;
                    }
                },
                None => {},
            }
            i = i + 1;
        }
        false
    }

    /// Posts `submission` to the form `form_id`. It is refused with
    /// `KeyNotExist` when the form does not exist, with `DuplicateEntry` when
    /// the same submission is already stored for the form, and with an
    /// internal error when it is too long to seal; otherwise it is sealed
    /// under the form's key and the next nonce, and stored.
    pub fn add_entry(&mut self, form_id: String, submission: Submission) -> (r: Result<bool, FormChainError>)
        requires
            old(self).wf(),
        ensures
            final(self).wf(),
            old(self)@.accepts_entry(form_id@, submission@) ==> r == Ok::<bool, FormChainError>(true)
                && final(self)@ == old(self)@.with_entry(form_id@, submission@)
                && final(self).stored() == old(self).stored().insert(
                    form_id@,
                    stored_of(old(self).stored(), form_id@).push(
                        sealed(
                            old(self)@.keys[form_id@],
                            nonce_of(old(self)@.entries_of(form_id@).len()),
                            submission@,
                        ),
                    ),
                ),
            !old(self)@.accepts_entry(form_id@, submission@) ==> final(self)@ == old(self)@ && final(self).stored()
                == old(self).stored(),
            !old(self)@.has_form(form_id@) ==> r == Err::<bool, FormChainError>(FormChainError::KeyNotExist),
            old(self)@.has_form(form_id@) && old(self)@.entries_of(form_id@).contains(submission@) ==> r == Err::<
                bool,
                FormChainError,
            >(FormChainError::DuplicateEntry),
            old(self)@.has_form(form_id@) && !old(self)@.entries_of(form_id@).contains(submission@) && !sealable(
                submission@.len(),
            ) ==> (r matches Err(FormChainError::InternalSystemError(m)) && m@ == "Submission could not be sealed"@),
    {
        let ghost before = self@;
        let ghost stored_before = self.stored();
        let key: Vec<u8> = match self.forms.get(&form_id) {
            None => {
                return Err(FormChainError::KeyNotExist);
            },
            Some(record) => record.1.clone(),
        };
        assert(key@ == before.keys[form_id@]);
        let count: usize = match self.entries.get(&form_id) {
            Some(list) => {
                proof {
                    assert(stored_before.contains_key(form_id@));
                    assert(byte_strings(list@) == stored_before[form_id@]);
                    assert forall|i: int| 0 <= i < list@.len() implies #[trigger] list@[i]@ == sealed(
                        key@,
                        nonce_of(i as nat),
                        before.entries[form_id@][i],
                    ) && sealable(before.entries[form_id@][i].len()) && list@[i]@.len()
                        == before.entries[form_id@][i].len() + TAG_LEN by {
                        assert(stored_before[form_id@][i] == list@[i]@);
                    }
                }
                if Self::holds_submission(&key, list, &submission, Ghost(before.entries[form_id@])) {
                    return Err(FormChainError::DuplicateEntry);
                }
                assert(list@.len() == stored_before[form_id@].len());
                list.len()
            },
            None => {
                assert(!stored_before.contains_key(form_id@));
                assert(!before.entries.contains_key(form_id@));
                0
            },
        };
        assert(count == before.entries_of(form_id@).len());
        let nonce = nonce_for(count);
        let length: u64 = submission.len() as u64;
        if length > MAX_SEALABLE_LEN {
            return Err(FormChainError::InternalSystemError(String::from_str("Submission could not be sealed")));
        }
        let sealed_entry = seal(key.as_slice(), nonce.as_slice(), submission.as_slice());
        let mut list = match self.entries.remove(&form_id) {
            Some(l) => l,
            None => Vec::new(),
        };
        assert(byte_strings(list@) == stored_of(stored_before, form_id@));
        list.push(sealed_entry);
        self.entries.insert(form_id, list);
        self.plain = Ghost(before.with_entry(form_id@, submission@).entries);
        proof {
            let id = form_id@;
            let new_stored = stored_before.insert(id, stored_of(stored_before, id).push(sealed_entry@));
            assert(byte_strings(list@) =~= stored_of(stored_before, id).push(sealed_entry@));
            assert(self.stored() =~= new_stored);
            assert(self@.forms =~= before.forms);
            assert(self@.keys =~= before.keys);
            assert(self@ == before.with_entry(id, submission@));
            assert forall|k: Seq<char>, i: int|
                #![trigger new_stored[k][i]]
                new_stored.contains_key(k) && 0 <= i < new_stored[k].len() implies new_stored[k][i] == sealed(
                    self@.keys[k],
                    nonce_of(i as nat),
                    self@.entries[k][i],
                ) && sealable(self@.entries[k][i].len()) && new_stored[k][i].len() == self@.entries[k][i].len()
                    + TAG_LEN by {
                if k != id {
                    assert(new_stored[k][i] == stored_before[k][i]);
                } else if i < count {
                    assert(new_stored[k][i] == stored_before[k][i]);
                }
            }
        }
        Ok(true)
    }

    /// Registers `form` under the hexadecimal text of `rnd_bytes`, with `key`
    /// as the key its submissions are sealed under, and returns the id;
    /// refused when a form already has the id or the key is not 32 bytes.
    pub fn create_form(&mut self, form: Form, rnd_bytes: Vec<u8>, key: Vec<u8>) -> (r: Result<String, FormChainError>)
        requires
            old(self).wf(),
        ensures
            final(self).wf(),
            final(self).stored() == old(self).stored(),
            !old(self)@.has_form(spec_hex(rnd_bytes@)) && key@.len() == KEY_LEN ==> (r matches Ok(id) && id@
                == spec_hex(rnd_bytes@) && final(self)@ == old(self)@.with_form(id@, form, key@)),
            old(self)@.has_form(spec_hex(rnd_bytes@)) ==> (r matches Err(FormChainError::InternalSystemError(m))
                && m@ == "System generated a key that exists"@ && final(self)@ == old(self)@),
            !old(self)@.has_form(spec_hex(rnd_bytes@)) && key@.len() != KEY_LEN ==> (r matches Err(
                FormChainError::InternalSystemError(m),
            ) && m@ == "Encryption key must be 32 bytes"@ && final(self)@ == old(self)@),
    {
        let form_id = hex_encode(rnd_bytes.as_slice());
        if self.forms.contains_key(&form_id) {
            return Err(FormChainError::InternalSystemError(String::from_str("System generated a key that exists")));
        }
        if key.len() != KEY_LEN {
            return Err(FormChainError::InternalSystemError(String::from_str("Encryption key must be 32 bytes")));
        }
        let ghost before = self@;
        let ghost kv = key@;
        self.forms.insert(form_id.clone(), (form, key));
        proof {
            assert(self@.forms =~= before.forms.insert(form_id@, form));
            assert(self@.keys =~= before.keys.insert(form_id@, kv));
            assert(!before.entries.contains_key(form_id@));
        }
        Ok(form_id)
    }

    /// The number of submissions posted to the form `form_id`, as a `u32`
    /// (wrapping past `u32::MAX`).
    pub fn get_entries_count(self, form_id: String) -> (r: Result<u32, FormChainError>)
        requires
            self.wf(),
        ensures
            r == Ok::<u32, FormChainError>(#[verifier::truncate] (self@.entries_of(form_id@).len() as u32)),
    {
        match self.entries.get(&form_id) {
            Some(v) => {
                assert(self.stored().contains_key(form_id@));
                assert(self@.entries.contains_key(form_id@));
                assert(byte_strings(v@) == self.stored()[form_id@]);
                assert(v@.len() == self.stored()[form_id@].len());
                Ok(#[verifier::truncate] (v.len() as u32))
            },
            None => {
                assert(!self.stored().contains_key(form_id@));
                Ok(0u32)
            },
        }
    }

    /// The submissions posted to the form `form_id`, oldest first, opened
    /// from their sealings.
    pub fn get_entries(self, form_id: String) -> (r: Result<Vec<Submission>, FormChainError>)
        requires
            self.wf(),
        ensures
            r matches Ok(v) && byte_strings(v@) == self@.entries_of(form_id@),
    {
        let ghost view = self@;
        let ghost stored = self.stored();
        let list = match self.entries.get(&form_id) {
            Some(list) => list,
            None => {
                let empty: Vec<Submission> = Vec::new();
                assert(!stored.contains_key(form_id@));
                assert(!view.entries.contains_key(form_id@));
                assert(byte_strings(empty@) =~= view.entries_of(form_id@));
                return Ok(empty);
            },
        };
        assert(stored.contains_key(form_id@));
        assert(view.entries.contains_key(form_id@));
        assert(view.forms.contains_key(form_id@));
        let key: &Vec<u8> = match self.forms.get(&form_id) {
            Some(record) => &record.1,
            None => {
                proof {
                    assert(false);
                }
                return Ok(Vec::new());
            },
        };
        let ghost plain = view.entries[form_id@];
        assert(byte_strings(list@) == stored[form_id@]);
        assert(list@.len() == plain.len());
        let mut out: Vec<Submission> = Vec::new();
        let mut i: usize = 0;
        while i < list.len()
            invariant
                key@ == view.keys[form_id@],
                key@.len() == KEY_LEN,
                stored.contains_key(form_id@),
                byte_strings(list@) == stored[form_id@],
                seals(view, stored),
                plain == view.entries[form_id@],
                i <= list@.len(),
                list@.len() == plain.len(),
                byte_strings(out@) == plain.subrange(0, i as int),
            decreases list@.len() - i,
        {
            let nonce = nonce_for(i);
            let ghost before_out = out@;
            proof {
                assert(stored[form_id@][i as int] == list@[i as int]@);
                assert(list@[i as int]@.len() == plain[i as int].len() + TAG_LEN);
            }
            let opened = open(key.as_slice(), nonce.as_slice(), list[i].as_slice());
            proof {
                assert(stored[form_id@][i as int] == list@[i as int]@);
                assert(list@[i as int]@ == sealed(key@, nonce@, plain[i as int]));
                assert(opens_sealing(key@, nonce@, list@[i as int]@, bytes_view(opened)));
            }
            match opened {
                Some(v) => {
                    assert(v@ == plain[i as int]);
                    out.push(v);
                },
                None => {
                    proof {
                        assert(false);
                    }
                },
            }
            proof {
                assert(byte_strings(out@) =~= byte_strings(before_out).push(plain[i as int]));
                assert(plain.subrange(0, i + 1) =~= plain.subrange(0, i as int).push(plain[i as int]));
            }
            i = i + 1;
        }
        proof {
            assert(plain.subrange(0, plain.len() as int) =~= plain);
        }
        Ok(out)
    }

    /// The ledger's forms with their keys, and its sealed submission lists,
    /// as pairs, each id once.
    pub fn into_parts(self) -> (r: (Vec<(String, (Form, Vec<u8>))>, Vec<(String, Vec<Vec<u8>>)>))
        requires
            self.wf(),
        ensures
            keys_distinct(r.0@),
            keys_distinct(r.1@),
            parts_of(self, r.0@, r.1@),
            parts_valid(r.0@, r.1@),
    {
        let ghost view = self@;
        let ghost stored = self.stored();
        let ghost fmodel = self.forms@;
        proof {
            assert(self.wf());
        }
        let forms = self.forms.into_pairs();
        let entries = self.entries.into_pairs();
        proof {
            let fs = forms@;
            let es = entries@;
            lemma_pairs_to_map(fs);
            lemma_pairs_to_map(es);
            assert(pairs_to_map(fs) == fmodel);
            assert forall|i: int| 0 <= i < fs.len() implies (#[trigger] fs[i]).1.1@.len() == KEY_LEN by {
                assert(fmodel.contains_key(fs[i].0@));
            }
            assert forall|i: int| 0 <= i < es.len() implies list_opens(pairs_to_map(fs), (#[trigger] es[i]).0@, es[i].1@) by {
                let id = es[i].0@;
                let list = es[i].1@;
                assert(pairs_to_map(es).contains_key(id));
                assert(pairs_to_map(es)[id] == es[i].1);
                assert(stored.contains_key(id));
                assert(stored[id] == byte_strings(list));
                assert(view.entries.contains_key(id));
                assert(fmodel.contains_key(id));
                let opened = view.entries[id];
                assert forall|t: int| 0 <= t < list.len() implies #[trigger] list[t]@ == sealed(
                    pairs_to_map(fs)[id].1@,
                    nonce_of(t as nat),
                    opened[t],
                ) && sealable(opened[t].len()) && list[t]@.len() == opened[t].len() + TAG_LEN by {
                    assert(stored[id][t] == list[t]@);
                }
                lemma_list_opens(pairs_to_map(fs), id, list, opened);
            }
        }
        (forms, entries)
    }

    /// The ledger that the given forms and sealed submission lists make,
    /// later pairs replacing earlier ones with the same id; `None` when they
    /// do not make one.
    #[verifier::loop_isolation(false)]
    pub fn from_parts(forms: Vec<(String, (Form, Vec<u8>))>, entries: Vec<(String, Vec<Vec<u8>>)>) -> (r: Option<Ledger>)
        ensures
            r is Some <==> parts_valid(forms@, entries@),
            r matches Some(l) ==> restored_from(l, forms@, entries@),
    {
        let ghost fs = forms@;
        let ghost es = entries@;
        let mut i: usize = 0;
        while i < forms.len()
            invariant
                forms@ == fs,
                i <= fs.len(),
                forall|t: int| 0 <= t < i ==> (#[trigger] fs[t]).1.1@.len() == KEY_LEN,
            decreases fs.len() - i,
        {
            if forms[i].1.1.len() != KEY_LEN {
                return None;
            }
            i = i + 1;
        }
        let forms_map = TextMap::from_pairs(forms);
        proof {
            lemma_pairs_to_map_from(fs);
            assert forall|id: Seq<char>| #[trigger] forms_map@.contains_key(id) implies forms_map@[id].1@.len()
                == KEY_LEN by {
                let t = choose|t: int| 0 <= t < fs.len() && #[trigger] fs[t].0@ == id && pairs_to_map(fs)[id] == fs[t].1;
                assert(fs[t].1.1@.len() == KEY_LEN);
            }
        }
        let ghost fm = pairs_to_map(fs);
        let ghost mut plain: Map<Seq<char>, Seq<Seq<u8>>> = Map::empty();
        let mut k: usize = 0;
        while k < entries.len()
            invariant
                forms_map.wf(),
                forms_map@ == fm,
                fm == pairs_to_map(fs),
                forall|t: int| 0 <= t < fs.len() ==> (#[trigger] fs[t]).1.1@.len() == KEY_LEN,
                forall|id: Seq<char>| #[trigger] fm.contains_key(id) ==> fm[id].1@.len() == KEY_LEN,
                entries@ == es,
                k <= es.len(),
                forall|id: Seq<char>| #[trigger] pairs_to_map(es.take(k as int)).contains_key(id) <==> plain.contains_key(id),
                forall|id: Seq<char>| #[trigger] plain.contains_key(id) ==> fm.contains_key(id),
                forall|id: Seq<char>|
                    #[trigger] plain.contains_key(id) ==> pairs_to_map(es.take(k as int))[id]@.len() == plain[id].len(),
                forall|id: Seq<char>, j: int|
                    #![trigger plain[id][j]]
                    plain.contains_key(id) && 0 <= j < plain[id].len() ==> pairs_to_map(es.take(k as int))[id]@[j]@
                        == sealed(fm[id].1@, nonce_of(j as nat), plain[id][j]) && sealable(plain[id][j].len())
                        && pairs_to_map(es.take(k as int))[id]@[j]@.len() == plain[id][j].len() + TAG_LEN,
                forall|id: Seq<char>, j: int, p: Seq<u8>|
                    #![trigger plain[id][j], sealed(fm[id].1@, nonce_of(j as nat), p)]
                    plain.contains_key(id) && 0 <= j < plain[id].len() && sealable(p.len())
                        && pairs_to_map(es.take(k as int))[id]@[j]@ == sealed(fm[id].1@, nonce_of(j as nat), p)
                        ==> plain[id][j] == p,
                forall|t: int| 0 <= t < k ==> list_opens(fm, (#[trigger] es[t]).0@, es[t].1@),
            decreases es.len() - k,
        {
            let id = &entries[k].0;
            let list = &entries[k].1;
            let key: &Vec<u8> = match forms_map.get(id) {
                Some(record) => &record.1,
                None => {
                    proof {
                        assert(!fm.contains_key(es[k as int].0@));
                        assert(!list_opens(fm, es[k as int].0@, es[k as int].1@));
                        assert(!parts_valid(fs, es));
                    }
                    return None;
                },
            };
            assert(fm.contains_key(id@));
            let ghost mut opened: Seq<Seq<u8>> = Seq::empty();
            let mut j: usize = 0;
            while j < list.len()
                invariant
                    entries@ == es,
                    fm == pairs_to_map(fs),
                    k < es.len(),
                    *id == es[k as int].0,
                    *list == es[k as int].1,
                    fm.contains_key(id@),
                    key@ == fm[id@].1@,
                    key@.len() == KEY_LEN,
                    j <= list@.len(),
                    opened.len() == j,
                    forall|t: int|
                        0 <= t < j ==> list@[t]@ == #[trigger] sealed(key@, nonce_of(t as nat), opened[t]) && sealable(
                            opened[t].len(),
                        ) && list@[t]@.len() == opened[t].len() + TAG_LEN,
                    forall|t: int, p: Seq<u8>|
                        #![trigger opened[t], sealed(key@, nonce_of(t as nat), p)]
                        0 <= t < j && sealable(p.len()) && list@[t]@ == sealed(key@, nonce_of(t as nat), p) ==> opened[t]
                            == p,
                decreases list@.len() - j,
            {
                let nonce = nonce_for(j);
                let length: u64 = list[j].len() as u64;
                if length > MAX_SEALABLE_LEN + TAG_LEN as u64 {
                    proof {
                        assert(!opens_at(fm[id@].1@, j as int, list@[j as int]@));
                        assert(!opens_at(fm[es[k as int].0@].1@, j as int, es[k as int].1@[j as int]@));
                        assert(!list_opens(fm, es[k as int].0@, es[k as int].1@));
                        assert(!parts_valid(fs, es));
                    }
                    return None;
                }
                let result = open(key.as_slice(), nonce.as_slice(), list[j].as_slice());
                match result {
                    Some(v) => {
                        proof {
                            assert(opens_sealing(key@, nonce@, list@[j as int]@, bytes_view(result)));
                            let old_opened = opened;
                            opened = opened.push(v@);
                            assert(list@[j as int]@ == sealed(key@, nonce_of(j as nat), opened[j as int]));
                            assert forall|t: int| 0 <= t < j + 1 implies list@[t]@ == #[trigger] sealed(
                                key@,
                                nonce_of(t as nat),
                                opened[t],
                            ) && sealable(opened[t].len()) && list@[t]@.len() == opened[t].len() + TAG_LEN by {
                                if t < j {
                                    assert(old_opened[t] == opened[t]);
                                }
                            }
                            assert forall|t: int, p: Seq<u8>|
                                #![trigger opened[t], sealed(key@, nonce_of(t as nat), p)]
                                0 <= t < j + 1 && sealable(p.len()) && list@[t]@ == sealed(key@, nonce_of(t as nat), p)
                                    implies opened[t] == p by {
                                if t < j {
                                    assert(old_opened[t] == opened[t]);
                                } else {
                                    assert(bytes_view(result) == Some(p));
                                }
                            }
                        }
                    },
                    None => {
                        proof {
                            assert(opens_sealing(key@, nonce@, list@[j as int]@, bytes_view(result)));
                            assert forall|p: Seq<u8>| sealable(p.len()) implies #[trigger] sealed(
                                fm[id@].1@,
                                nonce_of(j as nat),
                                p,
                            ) != list@[j as int]@ by {}
                            assert(!opens_at(fm[id@].1@, j as int, list@[j as int]@));
                            assert(!opens_at(fm[es[k as int].0@].1@, j as int, es[k as int].1@[j as int]@));
                            assert(!list_opens(fm, es[k as int].0@, es[k as int].1@));
                            assert(!parts_valid(fs, es));
                        }
                        return None;
                    },
                }
                j = j + 1;
            }
            proof {
                let before = pairs_to_map(es.take(k as int));
                let after = pairs_to_map(es.take(k + 1));
                assert(es.take(k + 1).drop_last() =~= es.take(k as int));
                assert(after == before.insert(id@, *list));
                let eid = es[k as int].0@;
                let elist = es[k as int].1@;
                assert(elist == list@);
                assert(eid == id@);
                assert forall|t: int| 0 <= t < elist.len() implies #[trigger] elist[t]@ == sealed(
                    fm[eid].1@,
                    nonce_of(t as nat),
                    opened[t],
                ) && sealable(opened[t].len()) && elist[t]@.len() == opened[t].len() + TAG_LEN by {
                    assert(list@[t]@ == sealed(key@, nonce_of(t as nat), opened[t]));
                }
                lemma_list_opens(fm, eid, elist, opened);
                assert(list_opens(fm, eid, elist));
                plain = plain.insert(id@, opened);
            }
            k = k + 1;
        }
        proof {
            assert(es.take(es.len() as int) =~= es);
        }
        let entries_map = TextMap::from_pairs(entries);
        let l = Ledger { forms: forms_map, entries: entries_map, plain: Ghost(plain) };
        proof {
            let stored = l.stored();
            let em = pairs_to_map(es);
            assert forall|id: Seq<char>| #[trigger] stored.contains_key(id) implies stored[id].len()
                == plain[id].len() by {
                assert(em.contains_key(id));
                assert(stored[id] == byte_strings(em[id]@));
            }
            assert forall|id: Seq<char>, j: int|
                #![trigger stored[id][j]]
                stored.contains_key(id) && 0 <= j < stored[id].len() implies stored[id][j] == sealed(
                    l@.keys[id],
                    nonce_of(j as nat),
                    l@.entries[id][j],
                ) && sealable(l@.entries[id][j].len()) && stored[id][j].len() == l@.entries[id][j].len() + TAG_LEN by {
                assert(stored[id] == byte_strings(em[id]@));
                assert(stored[id][j] == em[id]@[j]@);
            }
            assert forall|id: Seq<char>, j: int, p: Seq<u8>|
                #![trigger stored[id][j], sealed(l@.keys[id], nonce_of(j as nat), p)]
                stored.contains_key(id) && 0 <= j < stored[id].len() && sealable(p.len()) && stored[id][j] == sealed(
                    l@.keys[id],
                    nonce_of(j as nat),
                    p,
                ) implies l@.entries[id][j] == p by {
                assert(stored[id] == byte_strings(em[id]@));
                assert(stored[id][j] == em[id]@[j]@);
                assert(plain[id][j] == plain[id][j]);
            }
            assert(l@.forms =~= fm.map_values(|x: (Form, Vec<u8>)| x.0));
            assert(l@.keys =~= fm.map_values(|x: (Form, Vec<u8>)| x.1@));
            assert(parts_valid(fs, es));
        }
        Some(l)
    }
}

/// Reading back what was written: after `entry` is posted to the form `id`,
/// the form's submissions are the earlier ones followed by `entry`, and the
/// forms, their keys and every other form's submissions are as they were.
pub proof fn lemma_entry_read_back(v: LedgerView, id: Seq<char>, entry: Seq<u8>, other: Seq<char>)
    requires
        other != id,
    ensures
        v.with_entry(id, entry).entries_of(id) == v.entries_of(id).push(entry),
        v.with_entry(id, entry).entries_of(other) == v.entries_of(other),
        v.with_entry(id, entry).forms == v.forms,
        v.with_entry(id, entry).keys == v.keys,
{
}

/// Each accepted submission raises the form's submission count by one, and
/// so does its `u32` count below `u32::MAX`.
pub proof fn lemma_entry_count_grows(v: LedgerView, id: Seq<char>, entry: Seq<u8>)
    ensures
        v.with_entry(id, entry).entries_of(id).len() == v.entries_of(id).len() + 1,
        v.entries_of(id).len() < u32::MAX ==> #[verifier::truncate] (v.with_entry(id, entry).entries_of(
            id,
        ).len() as u32) == #[verifier::truncate] (v.entries_of(id).len() as u32) + 1,
{
}

/// A submission that was accepted is refused when it is sent again.
pub proof fn lemma_resubmission_refused(v: LedgerView, id: Seq<char>, entry: Seq<u8>)
    ensures
        !v.with_entry(id, entry).accepts_entry(id, entry),
{
    assert(v.with_entry(id, entry).entries_of(id).last() == entry);
}

/// Submissions are only ever held for registered forms: an empty ledger has
/// none, and registering a form or posting to a registered form keeps it so.
pub proof fn lemma_entries_stay_registered(v: LedgerView, id: Seq<char>, entry: Seq<u8>, form: Form, key: Seq<u8>)
    requires
        v.entries_registered(),
    ensures
        v.has_form(id) ==> v.with_entry(id, entry).entries_registered(),
        v.with_form(id, form, key).entries_registered(),
{
}

/// A newly created form holds the given form and key, has no submissions
/// yet, and accepts any submission that can be sealed.
pub proof fn lemma_created_form_accepts_entries(v: LedgerView, id: Seq<char>, form: Form, key: Seq<u8>, entry: Seq<u8>)
    requires
        v.entries_registered(),
        !v.has_form(id),
        sealable(entry.len()),
    ensures
        v.with_form(id, form, key).has_form(id),
        v.with_form(id, form, key).forms[id] == form,
        v.with_form(id, form, key).keys[id] == key,
        v.with_form(id, form, key).entries_of(id) == Seq::<Seq<u8>>::empty(),
        v.with_form(id, form, key).accepts_entry(id, entry),
{
}

/// Everything a ledger stores for a form is sealed: the `i`-th stored byte
/// string is the sealing of the `i`-th submission under the form's 32-byte
/// key and the `i`-th nonce, 16 bytes longer than the submission and so
/// never the submission itself, and no two of a form's submissions share a
/// nonce.
pub proof fn lemma_stored_entries_sealed(l: Ledger, id: Seq<char>, i: int, j: int)
    requires
        l.wf(),
        l.stored().contains_key(id),
        0 <= i < l.stored()[id].len(),
        0 <= j < l.stored()[id].len(),
        l.stored()[id].len() <= u64::MAX + 1,
    ensures
        l.stored()[id].len() == l@.entries_of(id).len(),
        l.stored()[id][i] == sealed(l@.keys[id], nonce_of(i as nat), l@.entries_of(id)[i]),
        sealable(l@.entries_of(id)[i].len()),
        l.stored()[id][i].len() == l@.entries_of(id)[i].len() + TAG_LEN,
        l.stored()[id][i] != l@.entries_of(id)[i],
        l@.keys[id].len() == KEY_LEN,
        i != j ==> nonce_of(i as nat) != nonce_of(j as nat),
{
    assert(l.stored()[id][i] == sealed(l@.keys[id], nonce_of(i as nat), l@.entries[id][i]));
    assert(l@.forms.contains_key(id));
    if i != j {
        crate::sealing::lemma_nonces_distinct(i as nat, j as nat);
    }
}

/// Saving a ledger and restoring it gives it back: its parts are valid, so
/// `from_parts` restores a ledger from them, and a ledger restored from them
/// holds the same forms, keys, submissions and stored byte strings.
pub proof fn lemma_restore_gives_back(
    l: Ledger,
    forms: Seq<(String, (Form, Vec<u8>))>,
    entries: Seq<(String, Vec<Vec<u8>>)>,
    restored: Ledger,
)
    requires
        l.wf(),
        parts_of(l, forms, entries),
        restored_from(restored, forms, entries),
    ensures
        restored@ == l@,
        restored.stored() == l.stored(),
{
    let s = l.stored();
    let v = l@;
    let w = restored@;
    assert(restored.stored() == s);
    assert(w.forms == v.forms);
    assert(w.keys == v.keys);
    assert forall|id: Seq<char>| #[trigger] w.entries.contains_key(id) == v.entries.contains_key(id) by {
        assert(s.contains_key(id) == v.entries.contains_key(id));
    }
    assert forall|id: Seq<char>| #[trigger] w.entries.contains_key(id) implies w.entries[id] == v.entries[id] by {
        assert(s.contains_key(id));
        assert forall|i: int| 0 <= i < w.entries[id].len() implies w.entries[id][i] == v.entries[id][i] by {
            assert(s[id][i] == sealed(v.keys[id], nonce_of(i as nat), v.entries[id][i]));
            assert(sealable(v.entries[id][i].len()));
            assert(s[id][i] == sealed(w.keys[id], nonce_of(i as nat), v.entries[id][i]));
        }
        assert(w.entries[id] =~= v.entries[id]);
    }
    assert(w.entries =~= v.entries);
}

/// A form takes a submission exactly when the form is registered, the same
/// submission is not among those posted to it, and it is at most
/// 274877906816 bytes long; a refused submission is answered "Key does not
/// exist" when there is no such form, "Entry already submitted" when it was
/// posted before, and with an internal error otherwise.
pub proof fn lemma_accepts_entry_exactly(v: LedgerView, id: Seq<char>, entry: Seq<u8>)
    ensures
        v.accepts_entry(id, entry) <==> v.forms.contains_key(id) && !(v.entries.contains_key(id)
            && v.entries[id].contains(entry)) && entry.len() <= 274877906816,
        !v.forms.contains_key(id) ==> refusal_message(v, id, entry) == "Key does not exist"@,
        v.forms.contains_key(id) && v.entries.contains_key(id) && v.entries[id].contains(entry) ==> refusal_message(
            v,
            id,
            entry,
        ) == "Entry already submitted"@,
        v.forms.contains_key(id) && !(v.entries.contains_key(id) && v.entries[id].contains(entry)) ==> refusal_message(
            v,
            id,
            entry,
        ) == "Internal System Error:"@ + "Submission could not be sealed"@,
{
}

/// Form ids are the hexadecimal text of the random bytes: twice as long as
/// the bytes, and different bytes give different ids.
pub proof fn lemma_form_ids_distinct(rnd1: Seq<u8>, rnd2: Seq<u8>)
    ensures
        form_id_of(rnd1) == spec_hex(rnd1),
        form_id_of(rnd1).len() == 2 * rnd1.len(),
        rnd1 != rnd2 ==> form_id_of(rnd1) != form_id_of(rnd2),
{
    crate::encoding::lemma_hex_len(rnd1);
    if form_id_of(rnd1) == form_id_of(rnd2) {
        crate::encoding::lemma_hex_injective(rnd1, rnd2);
    }
}

} // verus!

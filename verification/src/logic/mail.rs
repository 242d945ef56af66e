//! Player mailbox.

use crate::logic::clock::now_secs;
use crate::logic::traits::container::{Container, KeyedContainer};
use crate::logic::traits::item::{Identifiable, Templated};
use vstd::prelude::*;

verus! {

/// One mail in a player's mailbox.
pub struct StoredMail {
    pub mail_id: u64,
    pub mail_type: i32,
    pub is_read: bool,
    pub is_attachment_got: bool,
    pub send_time: i64,
    /// -1 = never expires
    pub expire_time: i64,
    /// Game template ID (empty for server-generated mails)
    pub template_id: String,
    pub title: String,
    pub content: String,
    pub sender_name: String,
    pub sender_icon: String,
    pub items: Vec<(String, i64)>,
}

/// A mail is expired at `now` (seconds) when it has a non-negative deadline
/// that `now` has reached.
pub open spec fn spec_is_expired_at(mail: StoredMail, now: int) -> bool {
    mail.expire_time >= 0 && now >= mail.expire_time
}

pub open spec fn spec_has_unclaimed_attachment(mail: StoredMail) -> bool {
    mail.items@.len() > 0 && !mail.is_attachment_got
}

/// `i` is the first position in `mails` holding `id`.
pub open spec fn is_first_with_id(mails: Seq<StoredMail>, id: u64, i: int) -> bool {
    &&& 0 <= i < mails.len()
    &&& mails[i].mail_id == id
    &&& forall|j: int| 0 <= j < i ==> mails[j].mail_id != id
}

pub open spec fn has_mail_id(mails: Seq<StoredMail>, id: u64) -> bool {
    exists|i: int| 0 <= i < mails.len() && mails[i].mail_id == id
}

/// A mail type passes a type filter when the filter is empty or lists it.
pub open spec fn type_selected(types: Seq<i32>, mail_type: i32) -> bool {
    types.len() == 0 || types.contains(mail_type)
}

proof fn lemma_has_mail_id_push(s: Seq<StoredMail>, m: StoredMail, id: u64)
    ensures
        has_mail_id(s.push(m), id) == (has_mail_id(s, id) || m.mail_id == id),
{
    let t = s.push(m);
    if m.mail_id == id {
        assert(t[s.len() as int] == m);
    }
    if has_mail_id(s, id) {
        let j = choose|j: int| 0 <= j < s.len() && #[trigger] s[j].mail_id == id;
        assert(t[j] == s[j]);
    }
    if has_mail_id(t, id) {
        let j = choose|j: int| 0 <= j < t.len() && #[trigger] t[j].mail_id == id;
        if j < s.len() {
            assert(t[j] == s[j]);
        }
    }
}

fn clone_items(items: &Vec<(String, i64)>) -> (out: Vec<(String, i64)>)
    ensures
        out@ == items@,
{
    let mut out: Vec<(String, i64)> = Vec::new();
    let mut i: usize = 0;
    while i < items.len()
        invariant
            i <= items.len(),
            out@ == items@.take(i as int),
        decreases items.len() - i,
    {
        let name = items[i].0.clone();
        out.push((name, items[i].1));
        assert(items@.take(i + 1) == items@.take(i as int).push(items@[i as int]));
        i = i + 1;
    }
    assert(items@.take(items.len() as int) == items@);
    out
}

fn vec_contains_i32(v: &[i32], x: i32) -> (b: bool)
    ensures
        b == v@.contains(x),
{
    let mut i: usize = 0;
    while i < v.len()
        invariant
            i <= v.len(),
            forall|j: int| 0 <= j < i ==> v@[j] != x,
        decreases v.len() - i,
    {
        if v[i] == x {
            return true;
        }
        i = i + 1;
    }
    false
}

fn vec_contains_u64(v: &[u64], x: u64) -> (b: bool)
    ensures
        b == v@.contains(x),
{
    let mut i: usize = 0;
    while i < v.len()
        invariant
            i <= v.len(),
            forall|j: int| 0 <= j < i ==> v@[j] != x,
        decreases v.len() - i,
    {
        if v[i] == x {
            return true;
        }
        i = i + 1;
    }
    false
}

fn type_matches(types: &[i32], mail_type: i32) -> (b: bool)
    ensures
        b == type_selected(types@, mail_type),
{
    types.len() == 0 || vec_contains_i32(types, mail_type)
}

impl StoredMail {
    pub fn has_unclaimed_attachment(&self) -> (b: bool)
        ensures
            b == spec_has_unclaimed_attachment(*self),
    {
        !self.items.is_empty() && !self.is_attachment_got
    }

    /// Whether the mail's deadline has passed at `now` (Unix seconds).
    /// A negative `expire_time` never expires.
    pub fn is_expired_at(&self, now: i64) -> (b: bool)
        ensures
            b == spec_is_expired_at(*self, now as int),
    {
        if self.expire_time < 0 {
            return false;
        }
        now >= self.expire_time
    }

    /// Whether the mail's deadline has passed, judged against the system clock.
    pub fn is_expired(&self) -> (b: bool)
        ensures
            exists|now: int| 0 <= now <= u64::MAX / 1000 && b == spec_is_expired_at(*self, now),
    {
        let now = now_secs();
        self.is_expired_at(now)
    }

    /// The mail sent to a brand-new player: no expiry, no attachments.
    pub fn make_welcome_mail() -> (m: StoredMail)
        ensures
            m.mail_id == 0,
            m.mail_type == 0,
            !m.is_read,
            !m.is_attachment_got,
            0 <= m.send_time,
            m.expire_time == -1,
            m.template_id@.len() == 0,
            m.title@ == "Welcome to Perlica-rs!"@,
            m.sender_name@ == "system"@,
            m.sender_icon@ == "Mail/mail_endfield"@,
            m.items@.len() == 0,
    {
        let now = now_secs();
        StoredMail {
            mail_id: 0,
            mail_type: 0,
            is_read: false,
            is_attachment_got: false,
            send_time: now,
            expire_time: -1,
            template_id: String::new(),
            title: String::from_str("Welcome to Perlica-rs!"),
            content: String::from_str(
                "Welcome to Talos-II, Endministrator!\n\n\
                 We are thrilled to have you here in the Arknights: Endfield technical test environment, proudly powered by the Perlica-rs emulator.\n\n\
                 This server is a completely open-source community project. We are building this from the ground up, and we're glad you're here to test the systems, break things, and help us improve the infrastructure.\n\n\
                 Want to contribute, report bugs, or just hang out with fellow developers and players?\n\
                 \u{2022} Join our Discord: https://discord.gg/AgrhKzhP\n\
                 \u{2022} Contribute on GitHub: https://github.com/Yoshk4e/perlica-rs\n\n\
                 Good luck out there on the frontier. Let's build something great together!\n\n\
                 - The Perlica-rs Team",
            ),
            sender_name: String::from_str("system"),
            sender_icon: String::from_str("Mail/mail_endfield"),
            items: Vec::new(),
        }
    }

    /// The greeting sent on every login: expires seven days after sending.
    pub fn make_login_greeting_mail() -> (m: StoredMail)
        ensures
            m.mail_id == 0,
            m.mail_type == 0,
            !m.is_read,
            !m.is_attachment_got,
            0 <= m.send_time,
            m.expire_time == m.send_time + 86400 * 7,
            m.template_id@.len() == 0,
            m.title@ == "Frontier Sync: Signal Restored"@,
            m.sender_name@ == "system"@,
            m.sender_icon@ == "Mail/mail_endfield"@,
            m.items@.len() == 0,
    {
        let now = now_secs();
        StoredMail {
            mail_id: 0,
            mail_type: 0,
            is_read: false,
            is_attachment_got: false,
            send_time: now,
            expire_time: now + 86400 * 7,
            template_id: String::new(),
            title: String::from_str("Frontier Sync: Signal Restored"),
            content: String::from_str(
                "Welcome back to Talos-II, Endministrator.\n\n\
                The Perlica-rs protocol has successfully re-initialized your session. The base is operating at peak efficiency in this technical test environment.\n\n\
                As a reminder, this is an open-source effort. If you encounter any anomalies or want to see the latest logic updates, check our logs here:\n\
                \u{2022} Repository: https://github.com/Yoshk4e/perlica-rs\n\
                \u{2022} Communication Hub: https://discord.gg/AgrhKzhP\n\n\
                Operational data is being synchronized. Good luck on the frontier.",
            ),
            sender_name: String::from_str("system"),
            sender_icon: String::from_str("Mail/mail_endfield"),
            items: Vec::new(),
        }
    }
}

/// The mailbox: mails in arrival order and the next id to hand out.
pub struct MailManager {
    pub mails: Vec<StoredMail>,
    next_id: u64,
}

impl MailManager {
    pub closed spec fn spec_next_id(&self) -> u64 {
        self.next_id
    }

    /// The mails, in mailbox order.
    pub closed spec fn mails_view(&self) -> Seq<StoredMail> {
        self.mails@
    }

    pub fn new() -> (m: Self)
        ensures
            m.mails_view().len() == 0,
            m.spec_next_id() == 1,
    {
        MailManager { mails: Vec::new(), next_id: 1 }
    }

    /// Appends `mail` under a fresh id and returns that id.
    pub fn add_mail(&mut self, mail: StoredMail) -> (id: u64)
        requires
            old(self).spec_next_id() < u64::MAX,
        ensures
            id == old(self).spec_next_id(),
            final(self).spec_next_id() == id + 1,
            final(self).mails_view() == old(self).mails_view().push(StoredMail { mail_id: id, ..mail }),
    {
        let id = self.next_id;
        self.next_id = self.next_id + 1;
        let mut mail = mail;
        mail.mail_id = id;
        self.mails.push(mail);
        id
    }

    pub fn next_id(&self) -> (id: u64)
        ensures
            id == self.spec_next_id(),
    {
        self.next_id
    }

    pub fn set_next_id(&mut self, id: u64)
        ensures
            final(self).spec_next_id() == id,
            final(self).mails_view() == old(self).mails_view(),
    {
        self.next_id = id;
    }

    pub fn all_ids(&self) -> (ids: Vec<u64>)
        ensures
            ids@ == self.mails_view().map_values(|m: StoredMail| m.mail_id),
    {
        let mut ids: Vec<u64> = Vec::new();
        let mut i: usize = 0;
        while i < self.mails.len()
            invariant
                i <= self.mails.len(),
                ids@ == self.mails_view().take(i as int).map_values(|m: StoredMail| m.mail_id),
            decreases self.mails.len() - i,
        {
            ids.push(self.mails[i].mail_id);
            assert(self.mails_view().take(i + 1) == self.mails_view().take(i as int).push(self.mails_view()[i as int]));
            i = i + 1;
        }
        assert(self.mails_view().take(self.mails.len() as int) == self.mails_view());
        ids
    }

    /// Some mail is unread and not expired at `now`.
    pub open spec fn spec_has_unread_at(&self, now: int) -> bool {
        exists|i: int|
            0 <= i < self.mails_view().len() && !(#[trigger] self.mails_view()[i]).is_read
                && !spec_is_expired_at(self.mails_view()[i], now)
    }

    /// Whether some mail is unread and not expired at `now` (Unix seconds).
    pub fn has_unread_at(&self, now: i64) -> (b: bool)
        ensures
            b == self.spec_has_unread_at(now as int),
    {
        let mut i: usize = 0;
        while i < self.mails.len()
            invariant
                i <= self.mails.len(),
                forall|j: int|
                    0 <= j < i ==> (#[trigger] self.mails_view()[j]).is_read || spec_is_expired_at(
                        self.mails_view()[j],
                        now as int,
                    ),
            decreases self.mails.len() - i,
        {
            if !self.mails[i].is_read && !self.mails[i].is_expired_at(now) {
                assert(!self.mails_view()[i as int].is_read);
                return true;
            }
            i = i + 1;
        }
        false
    }

    /// Whether some mail is unread and not expired, judged against the system clock.
    pub fn has_unread(&self) -> (b: bool)
        ensures
            exists|now: int| 0 <= now <= u64::MAX / 1000 && b == self.spec_has_unread_at(now),
    {
        let now = now_secs();
        self.has_unread_at(now)
    }

    /// The mails whose id is listed in `ids`, in mailbox order (expired mails included).
    pub fn get_by_ids(&self, ids: &[u64]) -> (out: Vec<&StoredMail>)
        ensures
            out@.len() == self.mails_view().filter(|m: StoredMail| ids@.contains(m.mail_id)).len(),
            forall|k: int|
                0 <= k < out@.len() ==> *out@[k] == self.mails_view().filter(
                    |m: StoredMail| ids@.contains(m.mail_id),
                )[k],
    {
        let ghost pred = |m: StoredMail| ids@.contains(m.mail_id);
        let mut out: Vec<&StoredMail> = Vec::new();
        let mut i: usize = 0;
        while i < self.mails.len()
            invariant
                i <= self.mails.len(),
                pred == (|m: StoredMail| ids@.contains(m.mail_id)),
                out@.len() == self.mails_view().take(i as int).filter(pred).len(),
                forall|k: int|
                    0 <= k < out@.len() ==> *out@[k] == self.mails_view().take(i as int).filter(pred)[k],
            decreases self.mails.len() - i,
        {
            let ghost before = self.mails_view().take(i as int);
            assert(self.mails_view().take(i + 1) == before.push(self.mails_view()[i as int]));
            proof {
                before.lemma_filter_push(self.mails_view()[i as int], pred);
            }
            if vec_contains_u64(ids, self.mails[i].mail_id) {
                out.push(&self.mails[i]);
            }
            i = i + 1;
        }
        assert(self.mails_view().take(self.mails.len() as int) == self.mails_view());
        out
    }

    fn find_index(&self, id: u64) -> (r: Option<usize>)
        ensures
            match r {
                Some(i) => is_first_with_id(self.mails_view(), id, i as int),
                None => !has_mail_id(self.mails_view(), id),
            },
    {
        let mut i: usize = 0;
        while i < self.mails.len()
            invariant
                i <= self.mails.len(),
                forall|j: int| 0 <= j < i ==> self.mails_view()[j].mail_id != id,
            decreases self.mails.len() - i,
        {
            if self.mails[i].mail_id == id {
                return Some(i);
            }
            i = i + 1;
        }
        None
    }

    /// Mutable access to the first mail with id `id`.
    pub fn get_by_id_mut(&mut self, id: u64) -> (r: Option<&mut StoredMail>)
        ensures
            match r {
                Some(m) => exists|i: int|
                    is_first_with_id(old(self).mails_view(), id, i) && *m == old(self).mails_view()[i]
                        && final(self).mails_view() == old(self).mails_view().update(i, *final(m))
                        && final(self).spec_next_id() == old(self).spec_next_id(),
                None => !has_mail_id(old(self).mails_view(), id) && *final(self) == *old(self),
            },
    {
        match self.find_index(id) {
            Some(i) => Some(&mut self.mails[i]),
            None => None,
        }
    }

    /// Marks the first mail with id `mail_id` read; false when there is none.
    pub fn mark_read(&mut self, mail_id: u64) -> (found: bool)
        ensures
            found == has_mail_id(old(self).mails_view(), mail_id),
            final(self).spec_next_id() == old(self).spec_next_id(),
            found ==> exists|i: int|
                is_first_with_id(old(self).mails_view(), mail_id, i) && final(self).mails_view()
                    == old(self).mails_view().update(i, StoredMail { is_read: true, ..old(self).mails_view()[i] }),
            !found ==> final(self).mails_view() == old(self).mails_view(),
    {
        match self.find_index(mail_id) {
            Some(i) => {
                self.mails[i].is_read = true;
                true
            },
            None => false,
        }
    }

    /// Claims the attachment of the first mail with id `mail_id`, returning its
    /// items; `None` when there is no such mail or it was already claimed.
    pub fn claim_attachment(&mut self, mail_id: u64) -> (r: Option<Vec<(String, i64)>>)
        ensures
            final(self).spec_next_id() == old(self).spec_next_id(),
            match r {
                Some(items) => exists|i: int|
                    is_first_with_id(old(self).mails_view(), mail_id, i)
                        && !old(self).mails_view()[i].is_attachment_got && items@ == old(self).mails_view()[i].items@ && final(self).mails_view() == old(self).mails_view().update(
                        i,
                        StoredMail { is_attachment_got: true, ..old(self).mails_view()[i] },
                    ),
                None => final(self).mails_view() == old(self).mails_view() && (!has_mail_id(
                    old(self).mails_view(),
                    mail_id,
                ) || exists|i: int|
                    is_first_with_id(old(self).mails_view(), mail_id, i)
                        && old(self).mails_view()[i].is_attachment_got),
            },
    {
        match self.find_index(mail_id) {
            Some(i) => {
                if self.mails[i].is_attachment_got {
                    return None;
                }
                self.mails[i].is_attachment_got = true;
                Some(clone_items(&self.mails[i].items))
            },
            None => None,
        }
    }

    /// Removes every mail with id `mail_id`; true when at least one was removed.
    pub fn delete_mail(&mut self, mail_id: u64) -> (removed: bool)
        ensures
            final(self).mails_view() == old(self).mails_view().filter(|m: StoredMail| m.mail_id != mail_id),
            removed == has_mail_id(old(self).mails_view(), mail_id),
            final(self).spec_next_id() == old(self).spec_next_id(),
    {
        let ghost pred = |m: StoredMail| m.mail_id != mail_id;
        let ghost orig = self.mails_view();
        let mut removed = false;
        let mut i: usize = 0;
        let ghost mut k: int = 0;
        while i < self.mails.len()
            invariant
                0 <= k <= orig.len(),
                pred == (|m: StoredMail| m.mail_id != mail_id),
                i == orig.take(k).filter(pred).len(),
                self.mails_view() == orig.take(k).filter(pred) + orig.skip(k),
                removed == has_mail_id(orig.take(k), mail_id),
                self.next_id == old(self).next_id,
                orig == old(self).mails_view(),
            decreases orig.len() - k,
        {
            proof {
                assert(orig.take(k + 1) == orig.take(k).push(orig[k]));
                orig.take(k).lemma_filter_push(orig[k], pred);
                assert(self.mails_view()[i as int] == orig[k]);
                lemma_has_mail_id_push(orig.take(k), orig[k], mail_id);
            }
            if self.mails[i].mail_id == mail_id {
                self.mails.remove(i);
                removed = true;
                proof {
                    assert(self.mails_view() == orig.take(k + 1).filter(pred) + orig.skip(k + 1));
                }
            } else {
                i = i + 1;
                proof {
                    assert(self.mails_view() == orig.take(k + 1).filter(pred) + orig.skip(k + 1));
                }
            }
            proof {
                k = k + 1;
            }
        }
        proof {
            assert(orig.skip(k).len() == 0);
            assert(orig.take(k) == orig);
            assert(self.mails_view() == orig.filter(pred));
        }
        removed
    }

    fn ids_of_selected(&self, types: &[i32]) -> (ids: Vec<u64>)
        ensures
            ids@ == self.mails@.filter(|m: StoredMail| type_selected(types@, m.mail_type)).map_values(
                |m: StoredMail| m.mail_id,
            ),
    {
        let ghost pred = |m: StoredMail| type_selected(types@, m.mail_type);
        let mut ids: Vec<u64> = Vec::new();
        let mut i: usize = 0;
        while i < self.mails.len()
            invariant
                i <= self.mails.len(),
                pred == (|m: StoredMail| type_selected(types@, m.mail_type)),
                ids@ == self.mails@.take(i as int).filter(pred).map_values(|m: StoredMail| m.mail_id),
            decreases self.mails.len() - i,
        {
            proof {
                assert(self.mails@.take(i + 1) == self.mails@.take(i as int).push(self.mails@[i as int]));
                self.mails@.take(i as int).lemma_filter_push(self.mails@[i as int], pred);
            }
            if type_matches(types, self.mails[i].mail_type) {
                ids.push(self.mails[i].mail_id);
            }
            i = i + 1;
        }
        assert(self.mails@.take(self.mails.len() as int) == self.mails@);
        ids
    }

    fn remove_ids(&mut self, ids: &[u64])
        ensures
            final(self).mails@ == old(self).mails@.filter(|m: StoredMail| !ids@.contains(m.mail_id)),
            final(self).next_id == old(self).next_id,
    {
        let ghost pred = |m: StoredMail| !ids@.contains(m.mail_id);
        let ghost orig = self.mails@;
        let mut i: usize = 0;
        let ghost mut k: int = 0;
        while i < self.mails.len()
            invariant
                0 <= k <= orig.len(),
                pred == (|m: StoredMail| !ids@.contains(m.mail_id)),
                i == orig.take(k).filter(pred).len(),
                self.mails@ == orig.take(k).filter(pred) + orig.skip(k),
                self.next_id == old(self).next_id,
                orig == old(self).mails@,
            decreases orig.len() - k,
        {
            proof {
                assert(orig.take(k + 1) == orig.take(k).push(orig[k]));
                orig.take(k).lemma_filter_push(orig[k], pred);
                assert(self.mails@[i as int] == orig[k]);
            }
            if vec_contains_u64(ids, self.mails[i].mail_id) {
                self.mails.remove(i);
                proof {
                    assert(self.mails@ == orig.take(k + 1).filter(pred) + orig.skip(k + 1));
                }
            } else {
                i = i + 1;
                proof {
                    assert(self.mails@ == orig.take(k + 1).filter(pred) + orig.skip(k + 1));
                }
            }
            proof {
                k = k + 1;
            }
        }
        proof {
            assert(orig.skip(k).len() == 0);
            assert(orig.take(k) == orig);
            assert(self.mails@ == orig.filter(pred));
        }
    }

    /// Deletes the mails of the listed types (all mails when `types` is empty)
    /// and returns their ids in mailbox order. Any other mail that shares one
    /// of those ids goes too.
    pub fn delete_by_types(&mut self, types: &[i32]) -> (deleted: Vec<u64>)
        ensures
            deleted@ == old(self).mails_view().filter(
                |m: StoredMail| type_selected(types@, m.mail_type),
            ).map_values(|m: StoredMail| m.mail_id),
            final(self).mails_view() == old(self).mails_view().filter(
                |m: StoredMail| !deleted@.contains(m.mail_id),
            ),
            final(self).spec_next_id() == old(self).spec_next_id(),
    {
        let to_delete = self.ids_of_selected(types);
        self.remove_ids(&to_delete);
        to_delete
    }

    /// Claims the attachments of every mail of the listed types (all types when
    /// `types` is empty) that carries items. Returns the ids claimed now and the
    /// ids that had already been claimed, both in mailbox order; mails without
    /// items are skipped.
    pub fn claim_all_attachments(&mut self, types: &[i32]) -> (r: (Vec<u64>, Vec<u64>))
        ensures
            r.0@ == old(self).mails_view().filter(
                |m: StoredMail|
                    type_selected(types@, m.mail_type) && m.items@.len() > 0 && !m.is_attachment_got,
            ).map_values(|m: StoredMail| m.mail_id),
            r.1@ == old(self).mails_view().filter(
                |m: StoredMail|
                    type_selected(types@, m.mail_type) && m.items@.len() > 0 && m.is_attachment_got,
            ).map_values(|m: StoredMail| m.mail_id),
            final(self).mails_view().len() == old(self).mails_view().len(),
            forall|i: int|
                0 <= i < old(self).mails_view().len() ==> #[trigger] final(self).mails_view()[i] == (if type_selected(
                    types@,
                    old(self).mails_view()[i].mail_type,
                ) && old(self).mails_view()[i].items@.len() > 0 {
                    StoredMail { is_attachment_got: true, ..old(self).mails_view()[i] }
                } else {
                    old(self).mails_view()[i]
                }),
            final(self).spec_next_id() == old(self).spec_next_id(),
    {
        let ghost orig = self.mails@;
        let ghost ok = |m: StoredMail|
            type_selected(types@, m.mail_type) && m.items@.len() > 0 && !m.is_attachment_got;
        let ghost bad = |m: StoredMail|
            type_selected(types@, m.mail_type) && m.items@.len() > 0 && m.is_attachment_got;
        let mut success: Vec<u64> = Vec::new();
        let mut failed: Vec<u64> = Vec::new();
        let mut i: usize = 0;
        while i < self.mails.len()
            invariant
                i <= self.mails.len(),
                self.mails@.len() == orig.len(),
                orig == old(self).mails@,
                self.next_id == old(self).next_id,
                ok == (|m: StoredMail|
                    type_selected(types@, m.mail_type) && m.items@.len() > 0 && !m.is_attachment_got),
                bad == (|m: StoredMail|
                    type_selected(types@, m.mail_type) && m.items@.len() > 0 && m.is_attachment_got),
                success@ == orig.take(i as int).filter(ok).map_values(|m: StoredMail| m.mail_id),
                failed@ == orig.take(i as int).filter(bad).map_values(|m: StoredMail| m.mail_id),
                forall|j: int| i <= j < orig.len() ==> #[trigger] self.mails@[j] == orig[j],
                forall|j: int|
                    0 <= j < i ==> #[trigger] self.mails@[j] == (if type_selected(
                        types@,
                        orig[j].mail_type,
                    ) && orig[j].items@.len() > 0 {
                        StoredMail { is_attachment_got: true, ..orig[j] }
                    } else {
                        orig[j]
                    }),
            decreases self.mails.len() - i,
        {
            proof {
                assert(orig.take(i + 1) == orig.take(i as int).push(orig[i as int]));
                orig.take(i as int).lemma_filter_push(orig[i as int], ok);
                orig.take(i as int).lemma_filter_push(orig[i as int], bad);
            }
            let selected = type_matches(types, self.mails[i].mail_type);
            if selected && !self.mails[i].items.is_empty() {
                if self.mails[i].is_attachment_got {
                    failed.push(self.mails[i].mail_id);
                } else {
                    self.mails[i].is_attachment_got = true;
                    success.push(self.mails[i].mail_id);
                }
            }
            i = i + 1;
        }
        assert(orig.take(orig.len() as int) == orig);
        (success, failed)
    }
}

/// Claiming is one-shot: once the first mail with `id` has had its attachment
/// claimed (the update `claim_attachment` performs), that mail is still the first
/// with `id` and is marked claimed, so a second claim returns nothing.
pub proof fn lemma_claim_is_one_shot(mails: Seq<StoredMail>, id: u64, i: int)
    requires
        is_first_with_id(mails, id, i),
    ensures
        ({
            let after = mails.update(i, StoredMail { is_attachment_got: true, ..mails[i] });
            &&& has_mail_id(after, id)
            &&& forall|j: int| is_first_with_id(after, id, j) ==> j == i && after[j].is_attachment_got
        }),
{
    let after = mails.update(i, StoredMail { is_attachment_got: true, ..mails[i] });
    assert(is_first_with_id(after, id, i));
    assert forall|j: int| is_first_with_id(after, id, j) implies j == i && after[j].is_attachment_got by {
        if j < i {
            assert(after[j] == mails[j]);
        } else if j > i {
            assert(after[i].mail_id == id);
        }
    }
}

/// After `delete_mail(id)` no mail with `id` is left.
pub proof fn lemma_deleted_id_is_gone(mails: Seq<StoredMail>, id: u64)
    ensures
        !has_mail_id(mails.filter(|m: StoredMail| m.mail_id != id), id),
{
    let p = |m: StoredMail| m.mail_id != id;
    let f = mails.filter(p);
    assert forall|k: int| 0 <= k < f.len() implies f[k].mail_id != id by {
        mails.lemma_filter_pred(p, k);
    }
}

impl Identifiable for StoredMail {
    type Id = u64;

    open spec fn spec_id(&self) -> u64 {
        self.mail_id
    }

    fn id(&self) -> (id: u64) {
        self.mail_id
    }
}

impl Templated for StoredMail {
    open spec fn spec_template_id(&self) -> Seq<char> {
        self.template_id@
    }

    fn template_id(&self) -> (t: &str) {
        self.template_id.as_str()
    }
}

/// The first mail in `mails` with id `id`.
pub open spec fn first_with_id(mails: Seq<StoredMail>, id: u64) -> Option<StoredMail> {
    if has_mail_id(mails, id) {
        Some(mails[choose|i: int| is_first_with_id(mails, id, i)])
    } else {
        None
    }
}

proof fn lemma_first_with_id(mails: Seq<StoredMail>, id: u64, i: int)
    requires
        is_first_with_id(mails, id, i),
    ensures
        has_mail_id(mails, id),
        first_with_id(mails, id) == Some(mails[i]),
        forall|k: int| is_first_with_id(mails, id, k) ==> k == i,
{
    assert(mails[i].mail_id == id);
    let c = choose|k: int| is_first_with_id(mails, id, k);
    assert(is_first_with_id(mails, id, c));
    assert forall|k: int| is_first_with_id(mails, id, k) implies k == i by {
        if k < i {
            assert(mails[k].mail_id != id);
        } else if k > i {
            assert(mails[i].mail_id != id);
        }
    }
}

impl Container for MailManager {
    type Item = StoredMail;

    open spec fn spec_len(&self) -> nat {
        self.mails_view().len()
    }

    fn len(&self) -> (n: usize) {
        self.mails.len()
    }

    fn is_empty(&self) -> (b: bool) {
        self.mails.len() == 0
    }
}

impl KeyedContainer for MailManager {
    type Key = u64;

    open spec fn spec_lookup(&self, key: u64) -> Option<StoredMail> {
        first_with_id(self.mails_view(), key)
    }

    open spec fn spec_replaced(&self, key: u64, item: StoredMail, after: Self) -> bool {
        exists|i: int|
            is_first_with_id(self.mails_view(), key, i) && after.mails_view()
                == self.mails_view().update(i, item) && after.spec_next_id() == self.spec_next_id()
    }

    fn contains_key(&self, key: u64) -> (b: bool) {
        match self.find_index(key) {
            Some(i) => {
                proof {
                    lemma_first_with_id(self.mails_view(), key, i as int);
                }
                true
            },
            None => false,
        }
    }

    fn get_ref(&self, key: u64) -> (r: Option<&StoredMail>) {
        match self.find_index(key) {
            Some(i) => {
                proof {
                    lemma_first_with_id(self.mails_view(), key, i as int);
                }
                Some(&self.mails[i])
            },
            None => None,
        }
    }

    fn get_mut_ref(&mut self, key: u64) -> (r: Option<&mut StoredMail>) {
        match self.find_index(key) {
            Some(i) => {
                proof {
                    lemma_first_with_id(self.mails_view(), key, i as int);
                }
                Some(&mut self.mails[i])
            },
            None => None,
        }
    }
}

} // verus!

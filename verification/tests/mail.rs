use perlica::logic::mail::{MailManager, StoredMail};
use perlica::logic::traits::container::{Container, KeyedContainer};
use perlica::logic::traits::item::{Identifiable, Templated};
use perlica::logic::traits::lifecycle::Expirable;

fn make_mail(mail_type: i32, items: Vec<(String, i64)>) -> StoredMail {
    StoredMail {
        mail_id: 0,
        mail_type,
        is_read: false,
        is_attachment_got: false,
        send_time: 1000,
        expire_time: -1,
        template_id: String::new(),
        title: "Test".to_string(),
        content: "Test content".to_string(),
        sender_name: "system".to_string(),
        sender_icon: "icon".to_string(),
        items,
    }
}

fn make_mail_with_expiry(expire_time: i64) -> StoredMail {
    StoredMail {
        mail_id: 1,
        mail_type: 0,
        is_read: false,
        is_attachment_got: false,
        send_time: 0,
        expire_time,
        template_id: String::new(),
        title: String::new(),
        content: String::new(),
        sender_name: String::new(),
        sender_icon: String::new(),
        items: vec![],
    }
}

#[test]
fn has_unclaimed_attachment_with_items() {
    let mail = make_mail(0, vec![("item_001".to_string(), 5)]);
    assert!(mail.has_unclaimed_attachment());
}

#[test]
fn has_unclaimed_attachment_empty_items() {
    let mail = make_mail(0, vec![]);
    assert!(!mail.has_unclaimed_attachment());
}

#[test]
fn has_unclaimed_attachment_already_claimed() {
    let mut mail = make_mail(0, vec![("item_001".to_string(), 5)]);
    mail.is_attachment_got = true;
    assert!(!mail.has_unclaimed_attachment());
}

#[test]
fn new_manager_has_no_mails() {
    let mgr = MailManager::new();
    assert!(mgr.mails.is_empty());
    assert_eq!(mgr.next_id(), 1);
    assert!(!mgr.has_unread());
}

#[test]
fn add_mail_assigns_id() {
    let mut mgr = MailManager::new();
    let id1 = mgr.add_mail(make_mail(0, vec![]));
    let id2 = mgr.add_mail(make_mail(0, vec![]));
    assert_eq!(id1, 1);
    assert_eq!(id2, 2);
    assert_eq!(mgr.next_id(), 3);
}

#[test]
fn set_next_id() {
    let mut mgr = MailManager::new();
    mgr.set_next_id(100);
    assert_eq!(mgr.next_id(), 100);
}

#[test]
fn all_ids() {
    let mut mgr = MailManager::new();
    mgr.add_mail(make_mail(0, vec![]));
    mgr.add_mail(make_mail(0, vec![]));
    assert_eq!(mgr.all_ids(), vec![1, 2]);
}

#[test]
fn has_unread_with_unread_mail() {
    let mut mgr = MailManager::new();
    mgr.add_mail(make_mail(0, vec![]));
    assert!(mgr.has_unread());
}

#[test]
fn has_unread_false_when_all_read() {
    let mut mgr = MailManager::new();
    let id = mgr.add_mail(make_mail(0, vec![]));
    mgr.mark_read(id);
    assert!(!mgr.has_unread());
}

#[test]
fn mark_read_nonexistent_returns_false() {
    let mut mgr = MailManager::new();
    assert!(!mgr.mark_read(999));
}

#[test]
fn get_by_ids() {
    let mut mgr = MailManager::new();
    let id1 = mgr.add_mail(make_mail(0, vec![]));
    let id2 = mgr.add_mail(make_mail(0, vec![]));
    let result = mgr.get_by_ids(&[id1, id2, 999]);
    assert_eq!(result.len(), 2);
}

#[test]
fn claim_attachment_success() {
    let mut mgr = MailManager::new();
    let id = mgr.add_mail(make_mail(0, vec![("item_001".to_string(), 5)]));
    let items = mgr.claim_attachment(id);
    assert!(items.is_some());
    let items = items.unwrap();
    assert_eq!(items.len(), 1);
    assert_eq!(items[0].0, "item_001");
}

#[test]
fn claim_attachment_already_claimed() {
    let mut mgr = MailManager::new();
    let id = mgr.add_mail(make_mail(0, vec![("item_001".to_string(), 5)]));
    mgr.claim_attachment(id);
    let second = mgr.claim_attachment(id);
    assert!(second.is_none());
}

#[test]
fn claim_attachment_nonexistent() {
    let mut mgr = MailManager::new();
    let result = mgr.claim_attachment(999);
    assert!(result.is_none());
}

#[test]
fn delete_mail() {
    let mut mgr = MailManager::new();
    let id = mgr.add_mail(make_mail(0, vec![]));
    assert!(mgr.delete_mail(id));
    assert!(mgr.mails.is_empty());
}

#[test]
fn delete_mail_nonexistent() {
    let mut mgr = MailManager::new();
    assert!(!mgr.delete_mail(999));
}

#[test]
fn delete_by_types_with_empty_types_deletes_all() {
    let mut mgr = MailManager::new();
    mgr.add_mail(make_mail(1, vec![]));
    mgr.add_mail(make_mail(2, vec![]));
    let deleted = mgr.delete_by_types(&[]);
    assert_eq!(deleted.len(), 2);
    assert!(mgr.mails.is_empty());
}

#[test]
fn delete_by_types_filters_correctly() {
    let mut mgr = MailManager::new();
    mgr.add_mail(make_mail(1, vec![]));
    mgr.add_mail(make_mail(2, vec![]));
    mgr.add_mail(make_mail(3, vec![]));
    let deleted = mgr.delete_by_types(&[1, 3]);
    assert_eq!(deleted.len(), 2);
    assert_eq!(mgr.mails.len(), 1);
    assert_eq!(mgr.mails[0].mail_type, 2);
}

#[test]
fn claim_all_attachments() {
    let mut mgr = MailManager::new();
    mgr.add_mail(make_mail(0, vec![("a".to_string(), 1)]));
    mgr.add_mail(make_mail(0, vec![("b".to_string(), 2)]));
    mgr.add_mail(make_mail(0, vec![]));
    let (success, failed) = mgr.claim_all_attachments(&[]);
    assert_eq!(success.len(), 2);
    assert!(failed.is_empty());
}

#[test]
fn claim_all_attachments_already_claimed_goes_to_failed() {
    let mut mgr = MailManager::new();
    let id1 = mgr.add_mail(make_mail(0, vec![("a".to_string(), 1)]));
    mgr.claim_attachment(id1);
    let (success, failed) = mgr.claim_all_attachments(&[]);
    assert!(success.is_empty());
    assert_eq!(failed.len(), 1);
}

#[test]
fn claim_all_attachments_filters_by_type() {
    let mut mgr = MailManager::new();
    mgr.add_mail(make_mail(1, vec![("a".to_string(), 1)]));
    mgr.add_mail(make_mail(2, vec![("b".to_string(), 2)]));
    let (success, _failed) = mgr.claim_all_attachments(&[1]);
    assert_eq!(success.len(), 1);
}

#[test]
fn get_by_id_mut() {
    let mut mgr = MailManager::new();
    let id = mgr.add_mail(make_mail(0, vec![]));
    if let Some(m) = mgr.get_by_id_mut(id) {
        m.title = "Modified".to_string();
    }
    assert_eq!(mgr.get_by_ids(&[id])[0].title, "Modified");
}

#[test]
fn expirable_never_expires_with_negative_one() {
    let mail = make_mail_with_expiry(-1);
    assert!(!Expirable::is_expired(&mail));
}

#[test]
fn expirable_never_expires_with_any_negative() {
    let mail = make_mail_with_expiry(-999);
    assert!(!Expirable::is_expired(&mail));
}

#[test]
fn expirable_far_future_not_expired() {
    let mail = make_mail_with_expiry(4102444800);
    assert!(!Expirable::is_expired(&mail));
}

#[test]
fn expirable_epoch_zero_is_expired() {
    let mail = make_mail_with_expiry(0);
    assert!(Expirable::is_expired(&mail));
}

#[test]
fn expirable_past_timestamp_is_expired() {
    let mail = make_mail_with_expiry(1);
    assert!(Expirable::is_expired(&mail));
}

#[test]
fn claim_twice_yields_items_once() {
    let mut mgr = MailManager::new();
    let id = mgr.add_mail(make_mail(0, vec![("a".to_string(), 3), ("b".to_string(), 4)]));
    assert_eq!(mgr.claim_attachment(id), Some(vec![("a".to_string(), 3), ("b".to_string(), 4)]));
    assert_eq!(mgr.claim_attachment(id), None);
    let (ok, failed) = mgr.claim_all_attachments(&[]);
    assert!(ok.is_empty());
    assert_eq!(failed, vec![id]);
}

#[test]
fn expiry_at_given_instant() {
    let mail = make_mail_with_expiry(100);
    assert!(!mail.is_expired_at(99));
    assert!(mail.is_expired_at(100));
    assert!(mail.is_expired_at(101));
    assert!(!make_mail_with_expiry(-1).is_expired_at(i64::MAX));
}

#[test]
fn unread_ignores_expired_mail() {
    let mut mgr = MailManager::new();
    let mut m = make_mail(0, vec![]);
    m.expire_time = 50;
    mgr.add_mail(m);
    assert!(mgr.has_unread_at(49));
    assert!(!mgr.has_unread_at(50));
}

#[test]
fn mailbox_as_keyed_container() {
    let mut mgr = MailManager::new();
    let mut m = make_mail(4, vec![]);
    m.template_id = "tpl_x".to_string();
    let id = mgr.add_mail(m);
    assert_eq!(Container::len(&mgr), 1);
    assert!(mgr.contains_key(id));
    assert!(!mgr.contains_key(id + 1));
    let got = mgr.get_ref(id).unwrap();
    assert_eq!(got.id(), id);
    assert_eq!(Templated::template_id(got), "tpl_x");
    mgr.get_mut_ref(id).unwrap().is_read = true;
    assert!(mgr.get_ref(id).unwrap().is_read);
    assert!(mgr.get_mut_ref(id + 1).is_none());
}

#[test]
fn welcome_and_greeting_mails() {
    let w = StoredMail::make_welcome_mail();
    assert_eq!(w.expire_time, -1);
    assert!(w.items.is_empty());
    assert!(!w.is_read);
    let g = StoredMail::make_login_greeting_mail();
    assert!(!g.is_attachment_got);
}

#[test]
fn delete_removes_every_copy_of_an_id() {
    let mut mgr = MailManager::new();
    let id = mgr.add_mail(make_mail(0, vec![]));
    mgr.add_mail(make_mail(0, vec![]));
    mgr.mails.push(StoredMail { mail_id: id, ..make_mail(9, vec![]) });
    assert!(mgr.delete_mail(id));
    assert_eq!(mgr.all_ids(), vec![2]);
    assert_eq!(mgr.next_id(), 3);
}

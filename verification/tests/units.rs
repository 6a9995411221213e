//! Unit tests for identifiers, keys, schemas, the codec, the service
//! rules and the trusted crypto boundary.

use orange_storage::Id;
use orange_storage::cache::{Cache, Protocol};
use orange_storage::client::{Client, Processed};
use orange_storage::codec;
use orange_storage::crypto;
use orange_storage::orange_name::{OrangeName, OrangeResolver, OrangeSecret};
use orange_storage::records::{
    ChildrenValidation, HeaderInfo, Key, KeySet, PathedKey, Permissions, Record, RecordPath,
    Validation, ValidationError, WSecretKey,
};
use orange_storage::requests;
use orange_storage::service::Service;
use orange_storage::storage::{Filter, Op, PrivateItem, PublicItem, Request, Response};

fn fixed_root_cache() -> Cache {
    let root = PathedKey::new(RecordPath::root(), vec![1u8; 32]);
    Cache::new(root).unwrap()
}

#[test]
fn id_hex_form() {
    let id = Id(vec![0x12, 0xab, 0x00, 0xff]);
    assert_eq!(id.to_hex(), "12ab00ff".to_string());
}

#[test]
fn id_sentinels() {
    let max = Id::id_max();
    assert!(max.is_max());
    assert_eq!(max.to_hex(), "ff".repeat(32));
    let min = Id::id_min();
    assert!(!min.is_max());
    assert_eq!(min.to_hex(), "00".repeat(32));
}

#[test]
fn id_hash_deterministic_and_not_identity() {
    let data = vec![1u8, 2, 3];
    let a = Id::hash(&data);
    let b = Id::hash(&data);
    assert!(a.equals(&b));
    let c = Id::hash(&vec![1u8, 2, 4]);
    assert!(!a.equals(&c));
    assert_ne!(a.0, data);
}

#[test]
fn name_comparison_orders_by_utf8() {
    assert_eq!(codec::cmp_names("alpha", "beta"), -1);
    assert_eq!(codec::cmp_names("beta", "alpha"), 1);
    assert_eq!(codec::cmp_names("same", "same"), 0);
    assert_eq!(codec::cmp_names("ab", "abc"), -1);
}

#[test]
fn key_set_and_max_prefer_secrets() {
    let w = WSecretKey::from_secret(crypto::gen_secret()).unwrap();
    let public = w.public.clone();
    let secret_key = Key::Secret(w);
    let public_key = Key::Public(public.clone());

    let joined = secret_key.clone().max(public_key.clone()).unwrap();
    assert!(matches!(joined, Key::Secret(_)));
    let joined2 = public_key.clone().max(secret_key.clone()).unwrap();
    assert!(matches!(joined2, Key::Secret(_)));

    let other = Key::Public(WSecretKey::from_secret(crypto::gen_secret()).unwrap().public);
    assert!(matches!(
        public_key.clone().max(other),
        Err(ValidationError::DifferentKeys(_))
    ));

    assert!(matches!(
        public_key.clone().set(true),
        Err(ValidationError::MissingPerms(_))
    ));
    let downgraded = secret_key.set(false).unwrap();
    assert!(matches!(downgraded, Key::Public(p) if p == public));
}

#[test]
fn validation_checks_schema_against_keys() {
    let w = WSecretKey::from_secret(crypto::gen_secret()).unwrap();
    let keyset = KeySet {
        discover: WSecretKey::from_secret(crypto::gen_secret()).unwrap(),
        read: WSecretKey::from_secret(crypto::gen_secret()).unwrap(),
        children: None,
        delete: Some(Key::Public(w.public.clone())),
        others: Vec::new(),
    };
    // A schema demanding a secret delete key refuses a public one.
    let schema = Validation::new(None, Some(true), Vec::new(), false);
    assert!(matches!(
        schema.validate(&keyset),
        Err(ValidationError::MissingPerms(_))
    ));
    // A schema content with a public delete key accepts it.
    let schema2 = Validation::new(None, Some(false), Vec::new(), false);
    assert!(schema2.validate(&keyset).is_ok());
    // A schema with children demands child keys.
    let schema3 = Validation::new(
        Some(ChildrenValidation::new(Vec::new(), true, true, true)),
        Some(false),
        Vec::new(),
        false,
    );
    assert!(matches!(
        schema3.validate(&keyset),
        Err(ValidationError::ActionMismatch(_))
    ));
}

#[test]
fn validation_id_is_schema_hash() {
    let a = Validation::new(None, Some(true), Vec::new(), false);
    let b = Validation::new(None, Some(true), Vec::new(), false);
    let c = Validation::new(None, Some(false), Vec::new(), false);
    assert!(a.id().equals(&b.id()));
    assert!(!a.id().equals(&c.id()));
}

#[test]
fn header_codec_round_trip() {
    let cache = fixed_root_cache();
    let header = cache.get(&RecordPath::root()).unwrap();
    let encoded = codec::encode_header(header);
    let decoded = codec::decode_header(&encoded).unwrap();
    assert!(decoded.id().equals(&header.id()));
    assert_eq!(codec::encode_header(&decoded), encoded);
    // Trailing bytes are rejected.
    let mut longer = encoded.clone();
    longer.push(0);
    assert!(codec::decode_header(&longer).is_none());
}

#[test]
fn from_item_rejects_garbage() {
    let read = WSecretKey::from_secret(crypto::gen_secret()).unwrap();
    let item = PrivateItem {
        discover: read.public.clone(),
        delete: None,
        payload: vec![1, 2, 3, 4],
    };
    assert!(matches!(
        Record::from_item(&item, &read),
        Err(ValidationError::Decryption(_))
    ));
    // A well-encrypted payload that is not a record is a decode failure.
    let ct = crypto::ecies_encrypt(&read.public, vec![9, 9, 9]).unwrap();
    let item2 = PrivateItem { discover: read.public.clone(), delete: None, payload: ct };
    assert!(matches!(
        Record::from_item(&item2, &read),
        Err(ValidationError::Deserialization(_))
    ));
}

#[test]
fn filter_operators_match_exactly() {
    let id = Id::hash(&b"row".to_vec());
    let name = OrangeSecret::new().name();
    let item = PublicItem { protocol: Id::hash(&b"p".to_vec()), header: vec![], payload: vec![] };
    let row = |t: i64| (id.clone(), name.clone(), item.clone(), t);

    let f = |op: Op, d: i64| Filter::new(None, None, None, Some((op, d)));
    assert!(f(Op::LS, 10).filter(row(9)).is_some());
    assert!(f(Op::LS, 10).filter(row(10)).is_none());
    assert!(f(Op::LSE, 10).filter(row(10)).is_some());
    assert!(f(Op::LSE, 10).filter(row(11)).is_none());
    assert!(f(Op::E, 10).filter(row(10)).is_some());
    assert!(f(Op::E, 10).filter(row(11)).is_none());
    assert!(f(Op::GRE, 10).filter(row(10)).is_some());
    assert!(f(Op::GRE, 10).filter(row(9)).is_none());
    assert!(f(Op::GR, 10).filter(row(11)).is_some());
    assert!(f(Op::GR, 10).filter(row(10)).is_none());

    let other = OrangeSecret::new().name();
    let by_author = Filter::new(None, Some(other), None, None);
    assert!(by_author.filter(row(10)).is_none());
}

#[test]
fn dm_freshness_window() {
    let mut resolver = OrangeResolver;
    let mut service = Service::new();
    let secret = OrangeSecret::new();
    let now = 20000i64;

    // Too old.
    let stale = requests::Client::read_dm(&mut resolver, &secret, now - 10001, 0).unwrap();
    let resp = service.process(&mut resolver, stale.build_request().clone(), now);
    assert!(matches!(resp, Response::InvalidSignature(_)));
    // In the future.
    let future = requests::Client::read_dm(&mut resolver, &secret, now + 1, 0).unwrap();
    let resp = service.process(&mut resolver, future.build_request().clone(), now);
    assert!(matches!(resp, Response::InvalidSignature(_)));
    // Since after time.
    let crossed = requests::Client::read_dm(&mut resolver, &secret, now, now + 5).unwrap();
    let resp = service.process(&mut resolver, crossed.build_request().clone(), now);
    assert!(matches!(resp, Response::InvalidSignature(_)));
    // On the boundary: accepted.
    let fresh = requests::Client::read_dm(&mut resolver, &secret, now - 10000, 0).unwrap();
    let resp = service.process(&mut resolver, fresh.build_request().clone(), now);
    assert!(matches!(resp, Response::ReadDM(_)));
}

#[test]
fn update_enforces_delete_authority() {
    let mut cache = fixed_root_cache();
    let mut resolver = OrangeResolver;
    let mut service = Service::new();
    let root_path = RecordPath::root();

    let delete_w = WSecretKey::from_secret(crypto::gen_secret()).unwrap();
    let validation = Validation::new(None, Some(true), Vec::new(), false);
    let info = HeaderInfo::new(Some(Key::Secret(delete_w)), Vec::new(), Vec::new());
    let protocol = Protocol::Plain(validation, info);
    let perms = Permissions::new(None, Some(true), Vec::new());

    let create = Client::create(&mut cache, &root_path, &protocol, 0, &perms, b"v1".to_vec())
        .unwrap();
    assert!(matches!(create.build_request(), Request::CreatePrivate(_)));
    let resp = service.process(&mut resolver, create.build_request().clone(), crypto::now());
    let path = match create.process_response(&mut cache, &mut resolver, resp).unwrap() {
        Processed::Create(path, _) => path,
        _ => panic!("expected a create outcome"),
    };

    // The rightful holder replaces the record.
    let update = Client::update(&mut cache, &path, &perms, b"v2".to_vec()).unwrap();
    let resp = service.process(&mut resolver, update.build_request().clone(), crypto::now());
    match update.process_response(&mut cache, &mut resolver, resp).unwrap() {
        Processed::Update(ok) => assert!(ok),
        _ => panic!("expected an update outcome"),
    }

    // A wrong delete key is refused and named back; the client sees the
    // failure.
    let discover_slot = {
        // Re-derive the discover secret the same way the client does.
        let header = cache.get(&path).unwrap();
        WSecretKey::from_secret(header.keys.discover.secret.clone()).unwrap()
    };
    let wrong = WSecretKey::from_secret(crypto::gen_secret()).unwrap();
    let bad = requests::Client::update_private(&discover_slot, &wrong, b"v3".to_vec()).unwrap();
    let resp = service.process(&mut resolver, bad.build_request().clone(), crypto::now());
    match bad.process_response(&mut resolver, resp).unwrap() {
        requests::Processed::DeleteKey(Some(k)) => {
            assert_ne!(k, wrong.public);
        },
        _ => panic!("expected the refusal to carry the stored delete key"),
    }
    // The stored row now holds the second payload.
    let read = Client::read(&mut cache, &path).unwrap();
    let resp = service.process(&mut resolver, read.build_request().clone(), crypto::now());
    match read.process_response(&mut cache, &mut resolver, resp).unwrap() {
        Processed::Read(Some((record, _))) => assert_eq!(record.payload, b"v2".to_vec()),
        _ => panic!("expected the updated record"),
    }
}

#[test]
fn delete_removes_the_row() {
    let mut cache = fixed_root_cache();
    let mut resolver = OrangeResolver;
    let mut service = Service::new();
    let root_path = RecordPath::root();

    let delete_w = WSecretKey::from_secret(crypto::gen_secret()).unwrap();
    let validation = Validation::new(None, Some(true), Vec::new(), false);
    let info = HeaderInfo::new(Some(Key::Secret(delete_w)), Vec::new(), Vec::new());
    let protocol = Protocol::Plain(validation, info);
    let perms = Permissions::new(None, Some(true), Vec::new());

    let create = Client::create(&mut cache, &root_path, &protocol, 0, &perms, b"gone".to_vec())
        .unwrap();
    let resp = service.process(&mut resolver, create.build_request().clone(), crypto::now());
    let path = match create.process_response(&mut cache, &mut resolver, resp).unwrap() {
        Processed::Create(path, _) => path,
        _ => panic!("expected a create outcome"),
    };

    let delete = Client::delete(&mut cache, &path).unwrap();
    let resp = service.process(&mut resolver, delete.build_request().clone(), crypto::now());
    match delete.process_response(&mut cache, &mut resolver, resp).unwrap() {
        Processed::Delete(ok) => assert!(ok),
        _ => panic!("expected a delete outcome"),
    }

    let read = Client::read(&mut cache, &path).unwrap();
    let resp = service.process(&mut resolver, read.build_request().clone(), crypto::now());
    match read.process_response(&mut cache, &mut resolver, resp).unwrap() {
        Processed::Read(found) => assert!(found.is_none()),
        _ => panic!("expected an empty read"),
    }
}

#[test]
fn derivation_is_deterministic() {
    let k1 = PathedKey::new(RecordPath::root(), vec![7u8; 32]);
    let k2 = PathedKey::new(RecordPath::root(), vec![7u8; 32]);
    let target = RecordPath::root().join(Id::hash(&b"segment".to_vec()));
    let d1 = k1.derive(&target).unwrap();
    let d2 = k2.derive(&target).unwrap();
    assert_eq!(d1.key, d2.key);
    assert_ne!(d1.key, k1.key);
    let s1 = d1.index(4).unwrap();
    let s2 = d2.index(4).unwrap();
    assert_eq!(s1, s2);
    assert_ne!(s1, d1.index(5).unwrap());
}

#[test]
fn derive_refuses_foreign_paths() {
    let under = RecordPath::root().join(Id::hash(&b"a".to_vec()));
    let k = PathedKey::new(under.clone(), vec![7u8; 32]);
    let elsewhere = RecordPath::root().join(Id::hash(&b"b".to_vec()));
    assert!(k.derive(&elsewhere).is_err());
    assert!(k.derive(&under.join(Id::hash(&b"c".to_vec()))).is_ok());
}

#[test]
fn record_paths_compose() {
    let root = RecordPath::root();
    assert!(root.is_root());
    assert!(root.parent().is_none());
    let a = Id::hash(&b"a".to_vec());
    let b = Id::hash(&b"b".to_vec());
    let p = root.join(a.clone()).join(b.clone());
    assert!(!p.is_root());
    assert!(p.last().equals(&b));
    let q = p.parent().unwrap();
    assert!(q.last().equals(&a));
    assert_eq!(
        p.string_form(),
        format!("/{}/{}", a.to_hex(), b.to_hex())
    );
}

#[test]
fn public_rows_are_author_guarded() {
    let mut resolver = OrangeResolver;
    let mut service = Service::new();
    let author = OrangeSecret::new();
    let intruder = OrangeSecret::new();
    let item = PublicItem {
        protocol: Id::hash(&b"p".to_vec()),
        header: Vec::new(),
        payload: b"original".to_vec(),
    };

    let create = requests::Client::create_public(&mut resolver, &author, item.clone()).unwrap();
    let resp = service.process(&mut resolver, create.build_request().clone(), 100);
    let id = match create.process_response(&mut resolver, resp).unwrap() {
        requests::Processed::CreatePublic(id) => id,
        _ => panic!("expected a created id"),
    };

    // Another author may not replace the row, and a foreign delete is a
    // no-op: the row is still there afterwards.
    let forged = requests::Client::update_public(&mut resolver, &intruder, id.clone(), item.clone())
        .unwrap();
    let resp = service.process(&mut resolver, forged.build_request().clone(), 101);
    assert!(matches!(resp, Response::InvalidSignature(_)));
    let forged_delete = requests::Client::delete_public(&mut resolver, &intruder, id.clone())
        .unwrap();
    let resp = service.process(&mut resolver, forged_delete.build_request().clone(), 102);
    assert!(matches!(resp, Response::Empty));
    let still_there = requests::Client::read_public(Filter::new(Some(id.clone()), None, None, None));
    let resp = service.process(&mut resolver, still_there.build_request().clone(), 102);
    match resp {
        Response::ReadPublic(rows) => assert_eq!(rows.len(), 1),
        _ => panic!("expected the row to survive a foreign delete"),
    }

    // The author may.
    let delete = requests::Client::delete_public(&mut resolver, &author, id.clone()).unwrap();
    let resp = service.process(&mut resolver, delete.build_request().clone(), 103);
    assert!(matches!(resp, Response::Empty));
}

#[test]
fn signed_payloads_verify_only_for_their_signer() {
    let mut resolver = OrangeResolver;
    let secret = OrangeSecret::new();
    let other = OrangeSecret::new();
    let signed = orange_storage::orange_name::Signed::new(
        &mut resolver,
        &secret,
        b"message".to_vec(),
    )
    .unwrap();
    assert!(signed.verify(&mut resolver, None).is_ok());
    let forged = orange_storage::orange_name::Signed {
        signer: other.name(),
        signature: signed.signature.clone(),
        payload: signed.payload.clone(),
    };
    assert!(forged.verify(&mut resolver, None).is_err());
}

#[test]
fn encryption_is_bound_to_the_key() {
    let w = WSecretKey::from_secret(crypto::gen_secret()).unwrap();
    let other = WSecretKey::from_secret(crypto::gen_secret()).unwrap();
    let ct = crypto::ecies_encrypt(&w.public, b"plain".to_vec()).unwrap();
    assert_ne!(ct, b"plain".to_vec());
    assert_eq!(crypto::ecies_decrypt(&w.secret, &ct).unwrap(), b"plain".to_vec());
    assert!(crypto::ecies_decrypt(&other.secret, &ct).is_err());
}

#[test]
fn cache_lookup_is_by_path_suffix() {
    let mut cache = fixed_root_cache();
    let root_header = cache.get(&RecordPath::root()).unwrap().clone();
    let parent = RecordPath::root().join(Id::hash(&b"x".to_vec()));
    cache.cache(parent.clone(), root_header.clone());
    let id = root_header.id();
    // The entry is found under its full path and under the id suffix.
    assert!(cache.get(&parent.join(id.clone())).is_some());
    assert!(cache.get(&RecordPath::root().join(id.clone())).is_some());
    assert!(cache.get(&RecordPath::root().join(Id::hash(&b"y".to_vec()))).is_none());
    // Removal is by exact path.
    assert!(cache.remove(&RecordPath::root().join(id.clone())).is_none());
    assert!(cache.remove(&parent.join(id)).is_some());
}

#[test]
fn downgrading_keeps_the_identifier() {
    // A created record's stored (downgraded) header hashes to the same id
    // as the cached full-authority header.
    let mut cache = fixed_root_cache();
    let root_path = RecordPath::root();
    let target = cache.get(&root_path).unwrap().clone();
    let protocol = Protocol::Pointer(target);
    let perms = Permissions::new(None, None, Vec::new());
    let client = Client::create(&mut cache, &root_path, &protocol, 0, &perms, b"x".to_vec())
        .unwrap();
    match &client.mid {
        orange_storage::client::MidState::Create(record, path) => {
            let cached = cache.get(path).unwrap();
            assert!(record.header.id().equals(&cached.id()));
        },
        _ => panic!("expected a create midstate"),
    }
}

#[test]
fn keyset_join_is_commutative_and_keeps_secrets() {
    let discover = WSecretKey::from_secret(crypto::gen_secret()).unwrap();
    let read = WSecretKey::from_secret(crypto::gen_secret()).unwrap();
    let delete = WSecretKey::from_secret(crypto::gen_secret()).unwrap();
    let delete_pub = delete.public.clone();

    let a = KeySet {
        discover: discover.clone(),
        read: read.clone(),
        children: None,
        delete: Some(Key::Secret(delete)),
        others: Vec::new(),
    };
    let b = KeySet {
        discover: discover.clone(),
        read: read.clone(),
        children: None,
        delete: Some(Key::Public(delete_pub.clone())),
        others: Vec::new(),
    };
    // One side holds only the public delete key; the join keeps the
    // secret, in either order.
    let ab = a.clone().max(b.clone()).unwrap();
    let ba = b.clone().max(a.clone()).unwrap();
    assert!(matches!(ab.delete, Some(Key::Secret(_))));
    assert!(matches!(ba.delete, Some(Key::Secret(_))));
    // Joining with itself changes nothing.
    let aa = a.clone().max(a.clone()).unwrap();
    assert!(matches!(aa.delete, Some(Key::Secret(ref w)) if w.public == delete_pub));
}

#[test]
fn forged_conflict_reply_is_malicious() {
    // A conflict whose signer is not the requested discover key is
    // refused as a malicious response.
    let mut resolver = OrangeResolver;
    let discover = WSecretKey::from_secret(crypto::gen_secret()).unwrap();
    let other = WSecretKey::from_secret(crypto::gen_secret()).unwrap();
    let client = requests::Client::create_private(&discover, None, b"mine".to_vec()).unwrap();
    let forged_item = PrivateItem { discover: other.public.clone(), delete: None, payload: vec![] };
    let forged = orange_storage::storage::SignedPrivateItem::new(forged_item, &other).unwrap();
    let resp = Response::PrivateConflict(forged, 5);
    assert!(client.process_response(&mut resolver, resp).is_err());
}

#[test]
fn child_admission_follows_the_schema() {
    let mut cache = fixed_root_cache();
    let root_path = RecordPath::root();
    let parent = cache.get(&root_path).unwrap().clone();

    // The root schema admits any protocol and pointers.
    let target = parent.clone();
    let pointer = Protocol::Pointer(target);
    let perms = Permissions::new(None, None, Vec::new());
    let client = Client::create(&mut cache, &root_path, &pointer, 0, &perms, b"p".to_vec())
        .unwrap();
    let child = match &client.mid {
        orange_storage::client::MidState::Create(record, _) => record.header.clone(),
        _ => panic!("expected a create midstate"),
    };
    assert!(parent.validate_child(&child).is_ok());

    // A record whose schema has no children admits nothing under it.
    assert!(child.validate_child(&parent).is_err());
    assert!(child.validate_child(&child).is_err());
}

#[test]
fn operations_on_unknown_paths_are_refused() {
    let mut cache = fixed_root_cache();
    let missing = RecordPath::root().join(Id::hash(&b"nowhere".to_vec()));
    let perms = Permissions::new(None, None, Vec::new());
    assert!(matches!(
        Client::read(&mut cache, &missing),
        Err(orange_storage::records::Error::Validation(ValidationError::MissingRecord(_)))
    ));
    assert!(matches!(
        Client::update(&mut cache, &missing, &perms, b"x".to_vec()),
        Err(orange_storage::records::Error::Validation(ValidationError::MissingRecord(_)))
    ));
    assert!(matches!(
        Client::delete(&mut cache, &missing),
        Err(orange_storage::records::Error::Validation(ValidationError::MissingRecord(_)))
    ));
}

#[test]
fn mismatched_response_shapes_are_malicious() {
    let mut cache = fixed_root_cache();
    let mut resolver = OrangeResolver;
    let root_path = RecordPath::root();
    let target = cache.get(&root_path).unwrap().clone();
    let protocol = Protocol::Pointer(target);
    let perms = Permissions::new(None, None, Vec::new());
    let client = Client::create(&mut cache, &root_path, &protocol, 0, &perms, b"x".to_vec())
        .unwrap();
    // A reply that does not answer a private create is rejected.
    let resp = Response::CreatedPublic(Id::hash(&b"bogus".to_vec()));
    assert!(matches!(
        client.process_response(&mut cache, &mut resolver, resp),
        Err(orange_storage::records::Error::MaliciousResponse(_))
    ));
}

#[test]
fn cache_merge_restores_authority_everywhere() {
    // Cache a downgraded copy first; merging the full-authority copy in
    // afterwards upgrades every occurrence to the one merged header.
    let mut cache = fixed_root_cache();
    let keys = KeySet {
        discover: WSecretKey::from_secret(crypto::gen_secret()).unwrap(),
        read: WSecretKey::from_secret(crypto::gen_secret()).unwrap(),
        children: None,
        delete: Some(Key::Secret(WSecretKey::from_secret(crypto::gen_secret()).unwrap())),
        others: Vec::new(),
    };
    let validation = Validation::new(None, Some(false), Vec::new(), false);
    let full = orange_storage::records::Header {
        keys,
        validation,
        data: Vec::new(),
        protocol: Id::hash(&b"merge test".to_vec()),
    };
    let weakened = full.clone().set(&Permissions::new(None, Some(false), Vec::new())).unwrap();
    assert!(matches!(weakened.keys.delete, Some(Key::Public(_))));
    assert!(weakened.id().equals(&full.id()));

    let parent_a = RecordPath::root().join(Id::hash(&b"a".to_vec()));
    let parent_b = RecordPath::root().join(Id::hash(&b"b".to_vec()));
    cache.cache(parent_a.clone(), weakened);
    cache.cache(parent_b.clone(), full.clone());

    // Both occurrences now hold the secret delete key.
    let at_a = cache.get(&parent_a.join(full.id())).unwrap();
    assert!(matches!(at_a.keys.delete, Some(Key::Secret(_))));
    let at_b = cache.get(&parent_b.join(full.id())).unwrap();
    assert!(matches!(at_b.keys.delete, Some(Key::Secret(_))));
}

//! End-to-end scenarios: a client (or several) against the storage
//! service, with real key derivation, encryption and signatures.

use orange_storage::Id;
use orange_storage::cache::{Cache, Protocol};
use orange_storage::client::{Client, Processed};
use orange_storage::crypto;
use orange_storage::orange_name::{OrangeResolver, OrangeSecret};
use orange_storage::records::{
    ChildrenValidation, HeaderInfo, Key, PathedKey, Permissions, RecordPath, Validation,
    WSecretKey,
};
use orange_storage::requests;
use orange_storage::service::Service;
use orange_storage::storage::{Filter, Op, PublicItem, Response};

fn fixed_root_cache() -> Cache {
    let root = PathedKey::new(RecordPath::root(), vec![1u8; 32]);
    Cache::new(root).unwrap()
}

#[test]
fn s1_round_trip() {
    let mut cache = fixed_root_cache();
    let mut resolver = OrangeResolver;
    let mut service = Service::new();
    let root_path = RecordPath::root();

    let target = cache.get(&root_path).unwrap().clone();
    let protocol = Protocol::Pointer(target);
    let perms = Permissions::new(None, None, Vec::new());
    let payload = b"hello world".to_vec();

    let client = Client::create(&mut cache, &root_path, &protocol, 0, &perms, payload.clone())
        .unwrap();
    let req = client.build_request().clone();
    let resp = service.process(&mut resolver, req, crypto::now());
    let processed = client.process_response(&mut cache, &mut resolver, resp).unwrap();
    let path = match processed {
        Processed::Create(path, conflict) => {
            assert!(conflict.is_none());
            path
        },
        _ => panic!("expected a create outcome"),
    };

    let reader = Client::read(&mut cache, &path).unwrap();
    let req2 = reader.build_request().clone();
    let resp2 = service.process(&mut resolver, req2, crypto::now());
    let processed2 = reader.process_response(&mut cache, &mut resolver, resp2).unwrap();
    match processed2 {
        Processed::Read(Some((record, _))) => {
            assert_eq!(record.payload, payload);
            let cached = cache.get(&path).unwrap().id();
            assert!(record.header.id().equals(&cached));
        },
        _ => panic!("expected the stored record back"),
    }
}

#[test]
fn s2_conflict() {
    let mut cache1 = fixed_root_cache();
    let mut cache2 = fixed_root_cache();
    let mut resolver = OrangeResolver;
    let mut service = Service::new();
    let root_path = RecordPath::root();
    let perms = Permissions::new(None, None, Vec::new());

    let target1 = cache1.get(&root_path).unwrap().clone();
    let first = Client::create(
        &mut cache1,
        &root_path,
        &Protocol::Pointer(target1),
        0,
        &perms,
        b"first".to_vec(),
    )
    .unwrap();
    let resp1 = service.process(&mut resolver, first.build_request().clone(), crypto::now());
    match first.process_response(&mut cache1, &mut resolver, resp1).unwrap() {
        Processed::Create(_, conflict) => assert!(conflict.is_none()),
        _ => panic!("expected a create outcome"),
    }

    let target2 = cache2.get(&root_path).unwrap().clone();
    let second = Client::create(
        &mut cache2,
        &root_path,
        &Protocol::Pointer(target2),
        0,
        &perms,
        b"second".to_vec(),
    )
    .unwrap();
    let resp2 = service.process(&mut resolver, second.build_request().clone(), crypto::now());
    assert!(matches!(resp2, Response::PrivateConflict(_, _)));
    match second.process_response(&mut cache2, &mut resolver, resp2).unwrap() {
        Processed::Create(_, Some((Ok(other), _))) => {
            assert_eq!(other.payload, b"first".to_vec());
        },
        _ => panic!("expected the first client's record as the conflict"),
    }
}

#[test]
fn s3_unauthorized_delete() {
    let mut cache = fixed_root_cache();
    let mut resolver = OrangeResolver;
    let mut service = Service::new();
    let root_path = RecordPath::root();

    let delete_w = WSecretKey::from_secret(crypto::gen_secret()).unwrap();
    let true_delete_pub = delete_w.public.clone();
    let validation = Validation::new(None, Some(true), Vec::new(), false);
    let info = HeaderInfo::new(Some(Key::Secret(delete_w)), Vec::new(), Vec::new());
    let protocol = Protocol::Plain(validation, info);
    let perms = Permissions::new(None, Some(true), Vec::new());

    let client = Client::create(&mut cache, &root_path, &protocol, 0, &perms, b"guarded".to_vec())
        .unwrap();
    let req = client.build_request().clone();
    let discover_pub = match &req {
        orange_storage::storage::Request::CreatePrivate(s) => s.signer.clone(),
        _ => panic!("expected a private create"),
    };
    let resp = service.process(&mut resolver, req, crypto::now());
    match client.process_response(&mut cache, &mut resolver, resp).unwrap() {
        Processed::Create(_, conflict) => assert!(conflict.is_none()),
        _ => panic!("expected a create outcome"),
    }

    let intruder = WSecretKey::from_secret(crypto::gen_secret()).unwrap();
    let attempt = requests::Client::delete_private(discover_pub, &intruder).unwrap();
    let resp2 = service.process(&mut resolver, attempt.build_request().clone(), crypto::now());
    match resp2 {
        Response::InvalidDelete(Some(k)) => assert_eq!(k, true_delete_pub),
        _ => panic!("expected the true delete key in the refusal"),
    }
}

#[test]
fn s4_discover_walk() {
    let mut writer = fixed_root_cache();
    let mut reader = fixed_root_cache();
    let mut resolver = OrangeResolver;
    let mut service = Service::new();
    let root_path = RecordPath::root();
    let perms = Permissions::new(None, None, Vec::new());

    for index in 0..3u32 {
        let target = writer.get(&root_path).unwrap().clone();
        let client = Client::create(
            &mut writer,
            &root_path,
            &Protocol::Pointer(target),
            index,
            &perms,
            vec![index as u8],
        )
        .unwrap();
        let resp = service.process(&mut resolver, client.build_request().clone(), crypto::now());
        match client.process_response(&mut writer, &mut resolver, resp).unwrap() {
            Processed::Create(_, conflict) => assert!(conflict.is_none()),
            _ => panic!("expected a create outcome"),
        }
    }

    let mut found = Vec::new();
    for index in 0..4u32 {
        let client = Client::discover(&mut reader, &root_path, index, Vec::new()).unwrap();
        let resp = service.process(&mut resolver, client.build_request().clone(), crypto::now());
        match client.process_response(&mut reader, &mut resolver, resp).unwrap() {
            Processed::Discover(opt) => found.push(opt),
            _ => panic!("expected a discover outcome"),
        }
    }
    assert!(found[0].is_some());
    assert!(found[1].is_some());
    assert!(found[2].is_some());
    assert!(found[3].is_none());
    // A discovered pointer resolves to its embedded target: the found path
    // ends in the target header's identifier.
    let target_id = writer.get(&root_path).unwrap().id();
    let (p0, _) = found[0].clone().unwrap();
    assert!(p0.last().equals(&target_id));
}

#[test]
fn s5_share_and_receive() {
    let mut alice_cache = fixed_root_cache();
    let bob_root = PathedKey::new(RecordPath::root(), crypto::gen_secret());
    let mut bob_cache = Cache::new(bob_root).unwrap();
    let mut resolver = OrangeResolver;
    let mut service = Service::new();
    let root_path = RecordPath::root();

    let alice = OrangeSecret::new();
    let bob = OrangeSecret::new();
    let alice_name = alice.name();
    let bob_name = bob.name();

    let delete_w = WSecretKey::from_secret(crypto::gen_secret()).unwrap();
    let validation = Validation::new(
        Some(ChildrenValidation::new(Vec::new(), false, false, false)),
        Some(false),
        Vec::new(),
        false,
    );
    let info = HeaderInfo::new(Some(Key::Secret(delete_w)), Vec::new(), Vec::new());
    let protocol = Protocol::Plain(validation, info);
    let full_perms = Permissions::new(Some((true, true)), Some(true), Vec::new());
    let payload = b"shared payload".to_vec();

    let create = Client::create(
        &mut alice_cache,
        &root_path,
        &protocol,
        0,
        &full_perms,
        payload.clone(),
    )
    .unwrap();
    let resp = service.process(&mut resolver, create.build_request().clone(), crypto::now());
    let alice_path = match create.process_response(&mut alice_cache, &mut resolver, resp).unwrap()
    {
        Processed::Create(path, conflict) => {
            assert!(conflict.is_none());
            path
        },
        _ => panic!("expected a create outcome"),
    };

    let share_perms = Permissions::new(Some((false, true)), Some(false), Vec::new());
    let since = 0i64;
    let share = Client::share(
        &mut alice_cache,
        &mut resolver,
        &alice,
        &bob_name,
        &share_perms,
        &alice_path,
    )
    .unwrap();
    let resp = service.process(&mut resolver, share.build_request().clone(), crypto::now());
    match share.process_response(&mut alice_cache, &mut resolver, resp).unwrap() {
        Processed::Share => {},
        _ => panic!("expected the share to go through"),
    }

    let receive = Client::receive(&mut resolver, &bob, crypto::now(), since).unwrap();
    let resp = service.process(&mut resolver, receive.build_request().clone(), crypto::now());
    let results = match receive.process_response(&mut bob_cache, &mut resolver, resp).unwrap() {
        Processed::Receive(results) => results,
        _ => panic!("expected a receive outcome"),
    };
    assert_eq!(results.len(), 1);
    assert!(results[0].0.equals(&alice_name));
    let bob_path = results[0].1.clone();
    assert!(bob_path.last().equals(&Id::id_max()) == false);

    let read = Client::read(&mut bob_cache, &bob_path).unwrap();
    let resp = service.process(&mut resolver, read.build_request().clone(), crypto::now());
    match read.process_response(&mut bob_cache, &mut resolver, resp).unwrap() {
        Processed::Read(Some((record, _))) => assert_eq!(record.payload, payload),
        _ => panic!("expected the shared record back"),
    }
}

#[test]
fn s6_public_filter() {
    let mut resolver = OrangeResolver;
    let mut service = Service::new();
    let author_a = OrangeSecret::new();
    let author_b = OrangeSecret::new();
    let protocol = Id::hash(&b"some public protocol".to_vec());

    let times = [100i64, 200, 300];
    let authors = [&author_a, &author_a, &author_b];
    for i in 0..3usize {
        let item = PublicItem {
            protocol: protocol.clone(),
            header: Vec::new(),
            payload: vec![i as u8],
        };
        let client = requests::Client::create_public(&mut resolver, authors[i], item).unwrap();
        let resp = service.process(&mut resolver, client.build_request().clone(), times[i]);
        assert!(matches!(resp, Response::CreatedPublic(_)));
    }

    let filter = Filter::new(
        None,
        Some(author_a.name()),
        Some(protocol.clone()),
        Some((Op::GRE, 200)),
    );
    let client = requests::Client::read_public(filter);
    let resp = service.process(&mut resolver, client.build_request().clone(), 400);
    match client.process_response(&mut resolver, resp).unwrap() {
        requests::Processed::ReadPublic(results) => {
            assert_eq!(results.len(), 1);
            assert!(results[0].1.equals(&author_a.name()));
            assert_eq!(results[0].3, 200);
            assert_eq!(results[0].2.payload, vec![1u8]);
        },
        _ => panic!("expected a public read outcome"),
    }
}

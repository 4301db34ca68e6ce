use paperdoll::PaperdollFactory;
use paperdoll_tar::error::PpdError;
use paperdoll_tar::model::LayerKind;
use paperdoll_tar::pack::save;
use paperdoll_tar::unpack::read;
use paperdoll_tar::{EXTENSION_NAME, FILE_NAME_MANIFEST};

/// Reads back the (name, data) entries of a container byte stream.
fn entries_of(bytes: &[u8]) -> Vec<(String, Vec<u8>)> {
    let mut ar = tar::Archive::new(std::io::Cursor::new(bytes));
    let mut out = Vec::new();
    for entry in ar.entries().unwrap() {
        let mut entry = entry.unwrap();
        let name = String::from_utf8(entry.path_bytes().to_vec()).unwrap();
        let mut data = Vec::new();
        std::io::Read::read_to_end(&mut entry, &mut data).unwrap();
        out.push((name, data));
    }
    out
}

/// A factory holding one doll (the default empty one plus one with pixels).
fn factory_with_red_doll() -> PaperdollFactory {
    let mut factory = PaperdollFactory::default();
    let id = factory.add_doll().unwrap();
    assert_eq!(id, 1);
    let doll = factory.get_doll_mut(id).unwrap();
    doll.image.width = 2;
    doll.image.height = 2;
    doll.image.pixels = vec![255, 0, 0, 255].repeat(4);
    factory
}

#[test]
fn constants() {
    assert_eq!(EXTENSION_NAME, "ppd");
    assert_eq!(FILE_NAME_MANIFEST, "manifest.yml");
}

#[test]
fn concrete_scenario_one_doll() {
    let factory = factory_with_red_doll();
    let mut manifest = factory.to_manifest();
    let bytes = save(&mut manifest).unwrap();

    let mut names: Vec<String> = entries_of(&bytes).into_iter().map(|e| e.0).collect();
    names.sort();
    assert_eq!(names, vec!["doll_1.png".to_string(), "manifest.yml".to_string()]);
    assert_eq!(manifest.dolls[1].path, "doll_1.png");

    let reloaded = read(&bytes).unwrap();
    let doll = reloaded.get_doll(1).unwrap();
    assert_eq!(doll.path, "doll_1.png");
    assert_eq!(doll.image.width, 2);
    assert_eq!(doll.image.height, 2);
    assert_eq!(doll.image.pixels, vec![255, 0, 0, 255].repeat(4));
}

#[test]
fn round_trip_identity() {
    let mut factory = PaperdollFactory::default();
    let d1 = factory.add_doll().unwrap();
    let d2 = factory.add_doll().unwrap();
    let f1 = factory.add_fragment().unwrap();
    {
        let doll = factory.get_doll_mut(d1).unwrap();
        doll.image.width = 2;
        doll.image.height = 1;
        doll.image.pixels = vec![1, 2, 3, 4, 5, 6, 7, 8];
    }
    {
        let doll = factory.get_doll_mut(d2).unwrap();
        doll.image.width = 1;
        doll.image.height = 2;
        doll.image.pixels = vec![9, 10, 11, 12, 13, 14, 15, 16];
    }
    {
        let frag = factory.get_fragment_mut(f1).unwrap();
        frag.image.width = 1;
        frag.image.height = 1;
        frag.image.pixels = vec![42, 43, 44, 45];
    }
    let mut manifest = factory.to_manifest();
    let bytes = save(&mut manifest).unwrap();
    let reloaded = read(&bytes).unwrap();

    let r1 = reloaded.get_doll(d1).unwrap();
    assert_eq!((r1.image.width, r1.image.height), (2, 1));
    assert_eq!(r1.image.pixels, vec![1, 2, 3, 4, 5, 6, 7, 8]);
    let r2 = reloaded.get_doll(d2).unwrap();
    assert_eq!((r2.image.width, r2.image.height), (1, 2));
    assert_eq!(r2.image.pixels, vec![9, 10, 11, 12, 13, 14, 15, 16]);
    let rf = reloaded.get_fragment(f1).unwrap();
    assert_eq!((rf.image.width, rf.image.height), (1, 1));
    assert_eq!(rf.image.pixels, vec![42, 43, 44, 45]);
}

#[test]
fn resave_is_idempotent() {
    let factory = factory_with_red_doll();
    let mut manifest = factory.to_manifest();
    let bytes = save(&mut manifest).unwrap();
    let reloaded = read(&bytes).unwrap();

    let mut manifest2 = reloaded.to_manifest();
    let bytes2 = save(&mut manifest2).unwrap();
    assert_eq!(manifest2.dolls[1].path, "doll_1.png");
    let reloaded2 = read(&bytes2).unwrap();
    let doll = reloaded2.get_doll(1).unwrap();
    assert_eq!(doll.path, "doll_1.png");
    assert_eq!(doll.image.pixels, vec![255, 0, 0, 255].repeat(4));
}

#[test]
fn naming_is_deterministic() {
    let names = |bytes: &[u8]| {
        let mut ns: Vec<String> = entries_of(bytes).into_iter().map(|e| e.0).collect();
        ns.sort();
        ns
    };
    let mut m1 = factory_with_red_doll().to_manifest();
    let mut m2 = factory_with_red_doll().to_manifest();
    let b1 = save(&mut m1).unwrap();
    let b2 = save(&mut m2).unwrap();
    assert_eq!(names(&b1), names(&b2));
}

#[test]
fn webp_extension_is_remapped() {
    let mut factory = factory_with_red_doll();
    factory.get_doll_mut(1).unwrap().path = "layer.webp".to_string();
    let mut manifest = factory.to_manifest();
    let bytes = save(&mut manifest).unwrap();
    assert_eq!(manifest.dolls[1].path, "doll_1.png");
    let names: Vec<String> = entries_of(&bytes).into_iter().map(|e| e.0).collect();
    assert!(names.contains(&"doll_1.png".to_string()));
}

#[test]
fn encode_failure_names_first_entry_and_keeps_its_path() {
    // Two dolls whose stored extension names no writable format: the save
    // fails on the first of them, and the failing doll's path is not
    // rewritten (the rewrite happens only after a successful encode).
    let mut factory = PaperdollFactory::default();
    let d1 = factory.add_doll().unwrap();
    let d2 = factory.add_doll().unwrap();
    for id in [d1, d2] {
        let doll = factory.get_doll_mut(id).unwrap();
        doll.path = "layer.xyz".to_string();
        doll.image.width = 1;
        doll.image.height = 1;
        doll.image.pixels = vec![1, 2, 3, 4];
    }
    let mut manifest = factory.to_manifest();
    match save(&mut manifest) {
        Err(PpdError::ImageEncode { kind, id, path }) => {
            assert!(matches!(kind, LayerKind::Doll));
            assert_eq!(id, d1);
            assert_eq!(path, format!("doll_{}.xyz", d1).into_bytes());
        }
        Err(other) => panic!("expected an image encode error, got {:?}", other),
        Ok(_) => panic!("expected an image encode error, got container bytes"),
    }
    assert_eq!(manifest.dolls[1].path, "layer.xyz");
    assert_eq!(manifest.dolls[2].path, "layer.xyz");
}

#[test]
fn empty_entries_are_skipped() {
    let factory = PaperdollFactory::default();
    let mut manifest = factory.to_manifest();
    assert_eq!(manifest.dolls.len(), 1);
    assert_eq!(manifest.dolls[0].path, "");
    let bytes = save(&mut manifest).unwrap();
    let names: Vec<String> = entries_of(&bytes).into_iter().map(|e| e.0).collect();
    assert_eq!(names, vec!["manifest.yml".to_string()]);
    assert_eq!(manifest.dolls[0].path, "");
}

#[test]
fn missing_manifest_fails_closed() {
    let mut builder = tar::Builder::new(Vec::new());
    let data = b"not an image";
    let mut header = tar::Header::new_gnu();
    header.set_size(data.len() as u64);
    header.set_mode(0o644);
    builder.append_data(&mut header, "foo.png", &data[..]).unwrap();
    let bytes = builder.into_inner().unwrap();
    assert!(matches!(read(&bytes), Err(PpdError::MissingManifest)));
}

#[test]
fn empty_container_is_missing_manifest() {
    let builder = tar::Builder::new(Vec::new());
    let bytes = builder.into_inner().unwrap();
    assert!(matches!(read(&bytes), Err(PpdError::MissingManifest)));
}

#[test]
fn garbage_container_is_archive_or_missing() {
    // A stream that is not a tar archive at all.
    let bytes = vec![7u8; 300];
    assert!(matches!(
        read(&bytes),
        Err(PpdError::Archive) | Err(PpdError::MissingManifest)
    ));
}

#[test]
fn corrupt_image_reports_the_entry() {
    let factory = factory_with_red_doll();
    let mut manifest = factory.to_manifest();
    let bytes = save(&mut manifest).unwrap();

    // Rebuild the container with the image entry's bytes corrupted.
    let mut builder = tar::Builder::new(Vec::new());
    for (name, data) in entries_of(&bytes) {
        let data = if name == "doll_1.png" { b"garbage".to_vec() } else { data };
        let mut header = tar::Header::new_gnu();
        header.set_size(data.len() as u64);
        header.set_mode(0o644);
        builder.append_data(&mut header, name.as_str(), &data[..]).unwrap();
    }
    let corrupted = builder.into_inner().unwrap();

    match read(&corrupted) {
        Err(PpdError::ImageDecode { kind, id, path }) => {
            assert!(matches!(kind, LayerKind::Doll));
            assert_eq!(id, 1);
            assert_eq!(path, b"doll_1.png".to_vec());
        }
        Err(other) => panic!("expected an image decode error, got {:?}", other),
        Ok(_) => panic!("expected an image decode error, got a document"),
    }
}

#[test]
fn unwritten_path_fails_decode_on_reload() {
    // A doll with a stored path but no pixel data: saving writes no image
    // file for it, so the saved container references a missing entry.
    let mut factory = PaperdollFactory::default();
    let id = factory.add_doll().unwrap();
    factory.get_doll_mut(id).unwrap().path = "ghost.png".to_string();
    let mut manifest = factory.to_manifest();
    let bytes = save(&mut manifest).unwrap();
    assert_eq!(manifest.dolls[1].path, "ghost.png");
    match read(&bytes) {
        Err(PpdError::ImageDecode { kind, id, path }) => {
            assert!(matches!(kind, LayerKind::Doll));
            assert_eq!(id, 1);
            assert_eq!(path, b"ghost.png".to_vec());
        }
        Err(other) => panic!("expected an image decode error, got {:?}", other),
        Ok(_) => panic!("expected an image decode error, got a document"),
    }
}

#[test]
fn unparseable_manifest_is_reported() {
    let mut builder = tar::Builder::new(Vec::new());
    let data = b"{{{ not yaml";
    let mut header = tar::Header::new_gnu();
    header.set_size(data.len() as u64);
    header.set_mode(0o644);
    builder.append_data(&mut header, "manifest.yml", &data[..]).unwrap();
    let bytes = builder.into_inner().unwrap();
    assert!(matches!(read(&bytes), Err(PpdError::ManifestParse)));
}

#[test]
fn dot_slash_entry_names_are_accepted() {
    let factory = factory_with_red_doll();
    let mut manifest = factory.to_manifest();
    let bytes = save(&mut manifest).unwrap();

    // Rebuild the container with `./`-prefixed names, as directory-walking
    // archivers produce them.
    let mut builder = tar::Builder::new(Vec::new());
    for (name, data) in entries_of(&bytes) {
        let prefixed = format!("./{}", name);
        let mut header = tar::Header::new_gnu();
        header.set_size(data.len() as u64);
        header.set_mode(0o644);
        builder.append_data(&mut header, prefixed.as_str(), &data[..]).unwrap();
    }
    let prefixed = builder.into_inner().unwrap();

    let reloaded = read(&prefixed).unwrap();
    let doll = reloaded.get_doll(1).unwrap();
    assert_eq!(doll.image.pixels, vec![255, 0, 0, 255].repeat(4));
}

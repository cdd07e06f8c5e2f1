//! Behaviour of the resource cache: extension classification, dedup by
//! normalized path, failure reporting, texture iteration.

use scene_arena::manager::{LoadError, ResourceManager};
use scene_arena::resource::{classify_path, Model, Resource, ResourceClass, ResourceKind, Texture};

fn tiny_texture(tag: u8) -> Texture {
    Texture { width: 2, height: 1, pixels: vec![tag, tag, tag, 255, 0, 0, 0, 255] }
}

#[test]
fn classify_known_texture_extensions() {
    for name in [
        "a.jpg", "b.jpeg", "c.png", "d.tif", "e.tiff", "f.tga", "g.bmp",
    ] {
        assert_eq!(classify_path(&name.to_string()), ResourceClass::TextureFile, "{}", name);
    }
}

#[test]
fn classify_is_case_insensitive() {
    assert_eq!(classify_path(&"TEX.PNG".to_string()), ResourceClass::TextureFile);
    assert_eq!(classify_path(&"photo.JPeG".to_string()), ResourceClass::TextureFile);
    assert_eq!(classify_path(&"rig.FBX".to_string()), ResourceClass::ModelFile);
}

#[test]
fn classify_model_and_unknown() {
    assert_eq!(classify_path(&"house.fbx".to_string()), ResourceClass::ModelFile);
    assert_eq!(classify_path(&"notes.txt".to_string()), ResourceClass::UnknownFile);
    assert_eq!(classify_path(&"noextension".to_string()), ResourceClass::UnknownFile);
    assert_eq!(classify_path(&"".to_string()), ResourceClass::UnknownFile);
    // The dot must belong to the final path component.
    assert_eq!(classify_path(&"dir.png/file".to_string()), ResourceClass::UnknownFile);
    assert_eq!(classify_path(&"dir.d/tex.png".to_string()), ResourceClass::TextureFile);
}

#[test]
fn load_or_get_dedups_identical_paths() {
    // Two requests for the identical normalized path return the same
    // handle; with each call retaining its handle, the count reaches two.
    let mut mgr = ResourceManager::new();
    let path = "tex.png".to_string();
    let h1 = mgr
        .load_or_get(&path, Ok(ResourceKind::Texture(tiny_texture(1))))
        .expect("first load should succeed");
    // The second request must not consult the loader; hand it a failure
    // to prove the cache answered.
    let h2 = mgr
        .load_or_get(&path, Err("loader must not run".to_string()))
        .expect("second request hits the cache");
    assert_eq!(h1, h2);
    assert_eq!(mgr.resource_ref_count(&h1), 1);
    let retained = mgr.share_resource_handle(&h2);
    assert_eq!(retained, h1);
    assert_eq!(mgr.resource_ref_count(&h1), 2);
}

#[test]
fn load_or_get_unknown_extension_is_reported() {
    let mut mgr = ResourceManager::new();
    let r = mgr.load_or_get(
        &"scene.xyz".to_string(),
        Ok(ResourceKind::Model(Model { data: vec![1] })),
    );
    match r {
        Err(LoadError::UnknownResourceKind { path }) => assert_eq!(path, "scene.xyz"),
        _ => panic!("expected an unknown-kind error"),
    }
    // Nothing was cached.
    assert!(mgr.find_resource(&"scene.xyz".to_string()).is_none());
}

#[test]
fn failed_load_caches_nothing_and_retries() {
    let mut mgr = ResourceManager::new();
    let path = "tex.png".to_string();
    let r = mgr.load_or_get(&path, Err("disk on fire".to_string()));
    match r {
        Err(LoadError::LoadFailed { path: p, cause }) => {
            assert_eq!(p, "tex.png");
            assert_eq!(cause, "disk on fire");
        },
        _ => panic!("expected a load failure"),
    }
    assert!(mgr.find_resource(&path).is_none());
    // The next request tries again and may now succeed.
    let h = mgr
        .load_or_get(&path, Ok(ResourceKind::Texture(tiny_texture(2))))
        .expect("retry succeeds");
    assert!(mgr.find_resource(&path) == h);
}

#[test]
fn find_resource_returns_none_handle_on_miss() {
    let mgr = ResourceManager::new();
    let h = mgr.find_resource(&"absent.png".to_string());
    assert!(h.is_none());
}

#[test]
fn release_to_zero_frees_the_resource() {
    let mut mgr = ResourceManager::new();
    let path = "tex.png".to_string();
    let h = mgr
        .load_or_get(&path, Ok(ResourceKind::Texture(tiny_texture(3))))
        .expect("load succeeds");
    let h2 = mgr.share_resource_handle(&h);
    mgr.release_resource(&h);
    assert!(mgr.borrow_resource(&h2).is_some());
    mgr.release_resource(&h2);
    assert!(mgr.borrow_resource(&h).is_none());
    assert!(mgr.find_resource(&path).is_none());
    // Releasing yet again is a harmless no-op.
    mgr.release_resource(&h);
}

#[test]
fn borrow_resource_mut_edits_in_place() {
    let mut mgr = ResourceManager::new();
    let path = "tex.png".to_string();
    let h = mgr
        .load_or_get(&path, Ok(ResourceKind::Texture(tiny_texture(4))))
        .expect("load succeeds");
    if let Some(resource) = mgr.borrow_resource_mut(&h) {
        if let ResourceKind::Texture(t) = resource.borrow_kind_mut() {
            t.width = 77;
        }
    } else {
        panic!("expected a live resource");
    }
    match mgr.borrow_resource(&h).map(|r| r.borrow_kind()) {
        Some(ResourceKind::Texture(t)) => assert_eq!(t.width, 77),
        _ => panic!("expected the texture back"),
    }
}

#[test]
fn for_each_texture_mut_rewrites_only_textures() {
    let mut mgr = ResourceManager::new();
    let ht = mgr
        .load_or_get(&"a.png".to_string(), Ok(ResourceKind::Texture(tiny_texture(5))))
        .expect("texture load succeeds");
    let hm = mgr
        .load_or_get(
            &"b.fbx".to_string(),
            Ok(ResourceKind::Model(Model { data: vec![9, 9] })),
        )
        .expect("model load succeeds");
    mgr.for_each_texture_mut(|t: &Texture| Texture {
        width: t.width * 10,
        height: t.height,
        pixels: t.pixels.clone(),
    });
    match mgr.borrow_resource(&ht).map(|r| r.borrow_kind()) {
        Some(ResourceKind::Texture(t)) => assert_eq!(t.width, 20),
        _ => panic!("expected the texture back"),
    }
    match mgr.borrow_resource(&hm).map(|r| r.borrow_kind()) {
        Some(ResourceKind::Model(m)) => assert_eq!(m.data, vec![9, 9]),
        _ => panic!("expected the model back"),
    }
    // Counts and paths are untouched by the sweep.
    assert_eq!(mgr.resource_ref_count(&ht), 1);
    assert_eq!(mgr.borrow_resource(&ht).unwrap().get_path(), "a.png");
}

#[test]
fn textures_path_has_a_default() {
    let mgr = ResourceManager::new();
    assert_eq!(mgr.get_textures_path(), "data/textures/");
}

#[test]
fn resource_new_couples_path_and_kind() {
    let r = Resource::new("p.png".to_string(), ResourceKind::Texture(tiny_texture(6)));
    assert_eq!(r.get_path(), "p.png");
    match r.borrow_kind() {
        ResourceKind::Texture(t) => assert_eq!(t.width, 2),
        _ => panic!("expected a texture"),
    }
}

#[test]
fn classify_edge_cases() {
    // A trailing dot means an empty extension.
    assert_eq!(classify_path(&"file.".to_string()), ResourceClass::UnknownFile);
    // Only the last dot counts.
    assert_eq!(classify_path(&"archive.tar.png".to_string()), ResourceClass::TextureFile);
    // A dot in a directory name does not give the file an extension.
    assert_eq!(classify_path(&"v1.2/readme".to_string()), ResourceClass::UnknownFile);
    // Backslash separates components as well.
    assert_eq!(classify_path(&"dir.d\\model.fbx".to_string()), ResourceClass::ModelFile);
    assert_eq!(classify_path(&"dir.png\\model".to_string()), ResourceClass::UnknownFile);
}

#[test]
fn load_or_get_accepts_uppercase_extension() {
    let mut mgr = ResourceManager::new();
    let h = mgr
        .load_or_get(&"TEX.PNG".to_string(), Ok(ResourceKind::Texture(tiny_texture(8))))
        .expect("uppercase extension is recognised");
    assert!(mgr.borrow_resource(&h).is_some());
    // Dedup is by exact path text: a different spelling is a different entry.
    assert!(mgr.find_resource(&"tex.png".to_string()).is_none());
}

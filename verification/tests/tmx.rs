//! End-to-end tests: TMX documents in bytes, loaded through the real XML
//! parser into typed map content.

use game::tmx::{TmxContent, TmxEntry, TmxError};
use game::world::Area;

#[test]
fn layer_grid_placement() {
    // 50 ids; id k must land at row k / 10, column k % 10
    let mut ids = String::new();
    for k in 0..50 {
        if k > 0 {
            ids.push(',');
        }
        ids.push_str(&k.to_string());
    }
    let doc = format!(
        "<map><layer name=\"Ground\" width=\"10\" height=\"5\"><data>{}</data></layer></map>",
        ids
    );
    let content = TmxContent::from_bytes(doc.as_bytes()).unwrap();
    match content.get("Ground").unwrap() {
        TmxEntry::Layer(layer) => {
            assert_eq!(layer.width, 10);
            assert_eq!(layer.height, 5);
            for k in 0..50usize {
                assert_eq!(layer.grid.get(k / 10, k % 10), k);
            }
        }
        _ => panic!("expected a layer"),
    }
}

#[test]
fn layer_data_with_whitespace() {
    let doc = "<map><layer name=\"L\" width=\"2\" height=\"2\"><data>\n 1, 2,\n 3, 4 \n</data></layer></map>";
    let content = TmxContent::from_bytes(doc.as_bytes()).unwrap();
    match content.get("L").unwrap() {
        TmxEntry::Layer(layer) => {
            assert_eq!(layer.grid.get(0, 0), 1);
            assert_eq!(layer.grid.get(0, 1), 2);
            assert_eq!(layer.grid.get(1, 0), 3);
            assert_eq!(layer.grid.get(1, 1), 4);
        }
        _ => panic!("expected a layer"),
    }
}

#[test]
fn layer_size_mismatch_is_rejected() {
    let doc = "<map><layer name=\"L\" width=\"2\" height=\"2\"><data>1,2,3</data></layer></map>";
    assert_eq!(
        TmxContent::from_bytes(doc.as_bytes()),
        Err(TmxError::LayerDataSizeMismatch)
    );
}

#[test]
fn layer_missing_width_is_rejected() {
    let doc = "<map><layer name=\"L\" height=\"2\"><data>1,2</data></layer></map>";
    assert_eq!(
        TmxContent::from_bytes(doc.as_bytes()),
        Err(TmxError::MissingRequiredAttribute)
    );
}

#[test]
fn layer_zero_height_is_rejected() {
    let doc = "<map><layer name=\"L\" width=\"2\" height=\"0\"><data></data></layer></map>";
    assert_eq!(
        TmxContent::from_bytes(doc.as_bytes()),
        Err(TmxError::MissingRequiredAttribute)
    );
}

#[test]
fn layer_bad_id_is_rejected() {
    let doc = "<map><layer name=\"L\" width=\"2\" height=\"1\"><data>1,x</data></layer></map>";
    assert_eq!(
        TmxContent::from_bytes(doc.as_bytes()),
        Err(TmxError::InvalidNumericValue)
    );
}

#[test]
fn tileset_global_ids() {
    // a tile's global id is firstgid + local id: 1 + 1160 == 1161
    let doc = "<map><tileset name=\"Overworld\" firstgid=\"1\" columns=\"8\" tilecount=\"40\" \
               tilewidth=\"16\" tileheight=\"16\">\
               <image source=\"atlas.png\"/>\
               <tile id=\"1160\"><properties>\
               <property name=\"Penalty\" type=\"float\" value=\"1.2\"/>\
               </properties></tile>\
               </tileset></map>";
    let content = TmxContent::from_bytes(doc.as_bytes()).unwrap();
    match content.get("Overworld").unwrap() {
        TmxEntry::Tileset(ts) => {
            assert_eq!(ts.columns, 8);
            assert_eq!(ts.rows, 5);
            assert_eq!(ts.tilewidth, 16);
            assert_eq!(ts.tileheight, 16);
            assert_eq!(ts.image_file_name, "atlas.png");
            let tile = ts.tile(1161).unwrap();
            assert_eq!(tile.id, 1161);
            assert!(ts.tile(1160).is_none());
            match ts.property(1161, "Penalty").unwrap() {
                game::tmx::property::PropertyEnum::Float(f) => assert_eq!(*f, 1200),
                _ => panic!("expected a float property"),
            }
            assert!(ts.property(1161, "Bonus").is_none());
            assert!(ts.property(7, "Penalty").is_none());
        }
        _ => panic!("expected a tileset"),
    }
}

#[test]
fn tileset_zero_columns_is_rejected() {
    // rows = tilecount / columns must never divide by zero
    let doc = "<map><tileset name=\"T\" firstgid=\"1\" columns=\"0\" tilecount=\"40\"/></map>";
    assert_eq!(
        TmxContent::from_bytes(doc.as_bytes()),
        Err(TmxError::MissingRequiredAttribute)
    );
}

#[test]
fn string_property_defaults() {
    // a property without a type is a string property
    let doc = "<map><tileset name=\"T\" firstgid=\"1\" columns=\"2\" tilecount=\"4\">\
               <tile id=\"0\"><properties>\
               <property name=\"Kind\" value=\"water\"/>\
               </properties></tile>\
               </tileset></map>";
    let content = TmxContent::from_bytes(doc.as_bytes()).unwrap();
    match content.get("T").unwrap() {
        TmxEntry::Tileset(ts) => match ts.property(1, "Kind").unwrap() {
            game::tmx::property::PropertyEnum::Text(s) => assert_eq!(s, "water"),
            _ => panic!("expected a string property"),
        },
        _ => panic!("expected a tileset"),
    }
}

#[test]
fn unsupported_property_type_is_rejected() {
    let doc = "<map><tileset name=\"T\" firstgid=\"1\" columns=\"2\" tilecount=\"4\">\
               <tile id=\"0\"><properties>\
               <property name=\"K\" type=\"color\" value=\"red\"/>\
               </properties></tile>\
               </tileset></map>";
    assert_eq!(
        TmxContent::from_bytes(doc.as_bytes()),
        Err(TmxError::UnsupportedPropertyType)
    );
}

#[test]
fn bad_float_property_is_rejected() {
    let doc = "<map><tileset name=\"T\" firstgid=\"1\" columns=\"2\" tilecount=\"4\">\
               <tile id=\"0\"><properties>\
               <property name=\"K\" type=\"float\" value=\"fast\"/>\
               </properties></tile>\
               </tileset></map>";
    assert_eq!(
        TmxContent::from_bytes(doc.as_bytes()),
        Err(TmxError::InvalidNumericValue)
    );
}

#[test]
fn duplicate_names_later_wins() {
    // two layers named alike: the later one in document order is retained
    let doc = "<map>\
               <layer name=\"A\" width=\"1\" height=\"1\"><data>7</data></layer>\
               <layer name=\"A\" width=\"1\" height=\"1\"><data>9</data></layer>\
               </map>";
    let content = TmxContent::from_bytes(doc.as_bytes()).unwrap();
    assert_eq!(content.entries.len(), 2);
    match content.get("A").unwrap() {
        TmxEntry::Layer(layer) => assert_eq!(layer.grid.get(0, 0), 9),
        _ => panic!("expected a layer"),
    }
}

#[test]
fn object_group_areas() {
    let doc = "<map><objectgroup name=\"Walls\">\
               <object id=\"3\" name=\"door\" x=\"1.5\" y=\"2\" width=\"4\" height=\"8\">\
               <properties><property name=\"Locked\" value=\"yes\"/></properties>\
               </object>\
               <object id=\"4\" x=\"0\" y=\"0\" width=\"1\" height=\"1\"/>\
               </objectgroup></map>";
    let content = TmxContent::from_bytes(doc.as_bytes()).unwrap();
    match content.get("Walls").unwrap() {
        TmxEntry::ObjectGroup(group) => {
            assert_eq!(group.objects.len(), 2);
            let door = &group.objects[0];
            assert_eq!(door.id, 3);
            assert_eq!(door.name, "door");
            assert_eq!(door.area, Area::new(1500, 2000, 4000, 8000));
            assert_eq!(door.properties.len(), 1);
            assert_eq!(door.properties[0].name, "Locked");
            assert_eq!(group.objects[1].id, 4);
        }
        _ => panic!("expected an object group"),
    }
}

#[test]
fn duplicate_object_ids_later_wins() {
    // two objects share id 5: looking the id up yields the later one
    let doc = "<map><objectgroup name=\"G\">\
               <object id=\"5\" name=\"first\" x=\"0\" y=\"0\" width=\"1\" height=\"1\"/>\
               <object id=\"5\" name=\"second\" x=\"2\" y=\"2\" width=\"1\" height=\"1\"/>\
               </objectgroup></map>";
    let content = TmxContent::from_bytes(doc.as_bytes()).unwrap();
    match content.get("G").unwrap() {
        TmxEntry::ObjectGroup(group) => {
            let o = group.object(5).unwrap();
            assert_eq!(o.name, "second");
            assert_eq!(o.area, Area::new(2000, 2000, 1000, 1000));
            assert!(group.object(6).is_none());
        }
        _ => panic!("expected an object group"),
    }
}

#[test]
fn unknown_tags_are_ignored() {
    let doc = "<map><imagelayer name=\"Sky\"/>\
               <layer name=\"L\" width=\"1\" height=\"1\"><data>5</data></layer>\
               </map>";
    let content = TmxContent::from_bytes(doc.as_bytes()).unwrap();
    assert_eq!(content.entries.len(), 1);
    assert!(content.get("Sky").is_none());
    assert!(content.get("L").is_some());
}

#[test]
fn malformed_document_is_rejected() {
    let doc = "<map><layer name=\"L\" width=\"1\" height=\"1\"><data>5</data></map>";
    assert_eq!(
        TmxContent::from_bytes(doc.as_bytes()),
        Err(TmxError::MalformedXml)
    );
}

#[test]
fn empty_document_is_rejected() {
    assert_eq!(
        TmxContent::from_bytes(b""),
        Err(TmxError::MalformedXml)
    );
}

use tiled::object::parse_points;
use tiled::{
    parse, parse_tileset, read_events, start_map, Colour, Event, Layer, LayerData, LayerTile,
    ObjectShape, Orientation, Progress, PropertyValue, TiledError,
};

const HEAD: &str = r#"<?xml version="1.0" encoding="UTF-8"?>
<map version="1.2" orientation="orthogonal" width="4" height="2" tilewidth="16" tileheight="16">"#;

fn doc(body: &str) -> Vec<u8> {
    format!("{}{}</map>", HEAD, body).into_bytes()
}

fn gids(row: &[LayerTile]) -> Vec<u32> {
    row.iter().map(|t| t.gid).collect()
}

fn grid(layer: &Layer) -> &Vec<Vec<LayerTile>> {
    match &layer.tiles {
        LayerData::Finite(grid) => grid,
        LayerData::Infinite(_) => panic!("chunks"),
    }
}

fn other(outcome: Result<tiled::TileMap, TiledError>) -> String {
    match outcome {
        Err(TiledError::Other(m)) => m,
        other => panic!("{:?}", other),
    }
}

fn malformed(outcome: Result<tiled::TileMap, TiledError>) -> String {
    match outcome {
        Err(TiledError::MalformedAttributes(m)) => m,
        other => panic!("{:?}", other),
    }
}

#[test]
fn the_attributes_of_the_map_are_read() {
    let map = parse(&doc("")).unwrap();
    assert_eq!(map.version, "1.2");
    assert_eq!(map.orientation, Orientation::Orthogonal);
    assert_eq!((map.width, map.height, map.tile_width, map.tile_height), (4, 2, 16, 16));
    assert_eq!(map.background_colour, None);
    assert!(!map.infinite);
    assert!(map.tilesets.is_empty() && map.layers.is_empty());
    assert!(map.image_layers.is_empty() && map.object_groups.is_empty());
    assert!(map.properties.entries().is_empty());
    let map = parse(
        br##"<map version="1.0" orientation="hexagonal" width="1" height="1" tilewidth="2"
              tileheight="3" backgroundcolor="#102030" infinite="1" nextobjectid="5"/>"##,
    )
    .unwrap();
    assert_eq!(map.orientation, Orientation::Hexagonal);
    assert_eq!(map.background_colour, Some(Colour { red: 16, green: 32, blue: 48 }));
    assert!(map.infinite);
}

#[test]
fn a_map_needs_its_attributes() {
    let expected = "map must have a version, width and height with correct types";
    assert_eq!(malformed(parse(b"<map/>")), expected);
    assert_eq!(
        malformed(parse(
            br#"<map version="1" orientation="round" width="1" height="1" tilewidth="1" tileheight="1"/>"#
        )),
        expected
    );
    assert_eq!(
        malformed(parse(
            br#"<map version="1" orientation="isometric" width="-1" height="1" tilewidth="1" tileheight="1"/>"#
        )),
        expected
    );
}

#[test]
fn a_document_without_a_map_ends_too_early() {
    match parse(b"<tileset/>") {
        Err(TiledError::PrematureEnd(m)) => assert_eq!(m, "Document ended before map was parsed"),
        other => panic!("{:?}", other),
    }
    match parse(format!("{}<layer name=\"a\">", HEAD).as_bytes()) {
        Err(TiledError::XmlDecodingError(_)) => {}
        other => panic!("{:?}", other),
    }
    assert!(matches!(parse(b"not xml"), Err(TiledError::XmlDecodingError(_))));
    assert!(matches!(parse(b""), Err(TiledError::XmlDecodingError(_))));
}

#[test]
fn events_that_stop_inside_an_element_end_too_early() {
    let mut events = read_events(&doc(r#"<layer name="a"></layer>"#));
    events.truncate(3);
    match tiled::parse_events(&events) {
        Err(TiledError::PrematureEnd(m)) => assert_eq!(m, "Document ended before we expected."),
        other => panic!("{:?}", other),
    }
    events.push(Event::End);
    assert!(matches!(tiled::parse_events(&events), Err(TiledError::PrematureEnd(_))));
}

#[test]
fn what_follows_the_map_is_not_looked_at() {
    let map = parse(format!("{}</map><!-- -->trailing", HEAD).as_bytes()).unwrap();
    assert_eq!(map.width, 4);
}

#[test]
fn a_grid_in_base64_and_zlib_is_read() {
    let map = parse(&doc(
        r#"<layer name="ground" width="4" height="2">
             <data encoding="base64" compression="zlib">
               eJxjZGBgYAJiZiBmAWJWIGYDYnYg5gBiAAIAACU=
             </data>
           </layer>"#,
    ))
    .unwrap();
    assert_eq!(map.layers.len(), 1);
    let rows = grid(&map.layers[0]);
    assert_eq!(rows.len(), 2);
    assert_eq!(gids(&rows[0]), vec![1, 2, 3, 4]);
    assert_eq!(gids(&rows[1]), vec![5, 6, 7, 8]);
    for row in rows {
        for tile in row {
            assert!(!tile.flip_h && !tile.flip_v && !tile.flip_d);
        }
    }
}

#[test]
fn a_grid_in_base64_and_gzip_is_read() {
    let map = parse(&doc(
        r#"<layer name="ground"><data encoding="base64" compression="gzip">
           H4sIAAAAAAACA2NkYGBgAmJmIGYBYlYgZgNidiDmAGIATLFdpyAAAAA=</data></layer>"#,
    ))
    .unwrap();
    let rows = grid(&map.layers[0]);
    assert_eq!(rows.len(), 2);
    assert_eq!(gids(&rows[0]), vec![1, 2, 3, 4]);
    assert_eq!(gids(&rows[1]), vec![5, 6, 7, 8]);
}

#[test]
fn a_grid_in_base64_and_zstd_is_read() {
    let raw: Vec<u8> = (1u32..=8).flat_map(|n| n.to_le_bytes()).collect();
    let text = base64::encode(zstd::encode_all(&raw[..], 0).unwrap());
    let map = parse(&doc(&format!(
        r#"<layer name="ground"><data encoding="base64" compression="zstd">{}</data></layer>"#,
        text
    )))
    .unwrap();
    let rows = grid(&map.layers[0]);
    assert_eq!(rows.len(), 2);
    assert_eq!(gids(&rows[0]), vec![1, 2, 3, 4]);
    assert_eq!(gids(&rows[1]), vec![5, 6, 7, 8]);
}

#[test]
fn a_grid_in_plain_base64_is_read_with_its_flips() {
    let map = parse(&doc(
        r#"<layer name="ground"><data encoding="base64">AQAAgAIAAEADAAAgBAAAAA==</data></layer>"#,
    ))
    .unwrap();
    let rows = grid(&map.layers[0]);
    assert_eq!(rows.len(), 1);
    assert_eq!(rows[0][0], LayerTile { gid: 1, flip_h: true, flip_v: false, flip_d: false });
    assert_eq!(rows[0][1], LayerTile { gid: 2, flip_h: false, flip_v: true, flip_d: false });
    assert_eq!(rows[0][2], LayerTile { gid: 3, flip_h: false, flip_v: false, flip_d: true });
    assert_eq!(rows[0][3], LayerTile { gid: 4, flip_h: false, flip_v: false, flip_d: false });
}

#[test]
fn a_grid_in_csv_is_read() {
    let map = parse(&doc(
        "<layer name=\"ground\"><data encoding=\"csv\">\n1,2,3,4,\n5,6,7\n</data></layer>",
    ))
    .unwrap();
    let rows = grid(&map.layers[0]);
    assert_eq!(rows.len(), 2);
    assert_eq!(gids(&rows[0]), vec![1, 2, 3, 4]);
    assert_eq!(gids(&rows[1]), vec![5, 6, 7]);
}

#[test]
fn data_without_text_is_an_empty_grid() {
    let map = parse(&doc(r#"<layer name="a"><data encoding="csv"></data></layer>"#)).unwrap();
    assert!(grid(&map.layers[0]).is_empty());
    let map = parse(&doc(r#"<layer name="a"><data encoding="base64"/></layer>"#)).unwrap();
    assert!(grid(&map.layers[0]).is_empty());
    let map = parse(&doc(r#"<layer name="a"/>"#)).unwrap();
    assert!(grid(&map.layers[0]).is_empty());
    assert!(matches!(
        parse(&doc(r#"<layer name="a"><data encoding="base64" compression="zlib"/></layer>"#)),
        Err(TiledError::DecompressingError(_))
    ));
}

#[test]
fn the_encoding_and_the_compression_have_to_be_known() {
    let layer = |data: &str| doc(&format!(r#"<layer name="a">{}</layer>"#, data));
    assert_eq!(
        other(parse(&layer("<data><tile gid=\"1\"/></data>"))),
        "XML format is currently not supported"
    );
    assert_eq!(
        other(parse(&layer(r#"<data compression="zlib">eJw=</data>"#))),
        "Unknown combination of no encoding and zlib compression"
    );
    assert_eq!(
        other(parse(&layer(r#"<data compression="lzma">AAAA</data>"#))),
        "Unknown combination of no encoding and lzma compression"
    );
    assert_eq!(
        other(parse(&layer(r#"<data encoding="hex">00</data>"#))),
        "Unknown encoding format hex"
    );
    assert_eq!(
        other(parse(&layer(r#"<data encoding="csv" compression="zlib">1</data>"#))),
        "Unknown combination of csv encoding and zlib compression"
    );
    assert_eq!(
        other(parse(&layer(r#"<data encoding="base64" compression="lzma">AAAA</data>"#))),
        "Unknown combination of base64 encoding and lzma compression"
    );
}

#[test]
fn bad_data_is_an_error_of_its_codec() {
    let layer = |data: &str| doc(&format!(r#"<layer name="a">{}</layer>"#, data));
    assert!(matches!(
        parse(&layer(r#"<data encoding="base64">!!!!</data>"#)),
        Err(TiledError::Base64DecodingError(_))
    ));
    assert!(matches!(
        parse(&layer(r#"<data encoding="base64" compression="zlib">AQAAAA==</data>"#)),
        Err(TiledError::DecompressingError(_))
    ));
    assert!(matches!(
        parse(&layer(r#"<data encoding="base64" compression="gzip">AQAAAA==</data>"#)),
        Err(TiledError::DecompressingError(_))
    ));
    assert!(matches!(
        parse(&layer(r#"<data encoding="base64" compression="zstd">AQAAAA==</data>"#)),
        Err(TiledError::DecompressingError(_))
    ));
    assert_eq!(
        other(parse(&layer(r#"<data encoding="csv">1,2,x</data>"#))),
        "CSV tile data must be a list of unsigned 32-bit numbers"
    );
}

#[test]
fn a_layer_has_defaults_for_what_it_leaves_out() {
    let map = parse(&doc(r#"<layer name="a"/><layer name="b" opacity="0.5" visible="0"
        offsetx="-3" offsety="2e1"><properties><property name="k" value="v"/></properties></layer>"#))
    .unwrap();
    let a = &map.layers[0];
    assert_eq!(a.name, "a");
    assert_eq!(a.opacity.text().parse::<f32>().unwrap(), 1.0f32);
    assert!(a.visible);
    assert_eq!(a.offset_x.text().parse::<f32>().unwrap(), 0.0f32);
    assert_eq!(a.offset_y.text().parse::<f32>().unwrap(), 0.0f32);
    assert!(a.properties.entries().is_empty());
    let b = &map.layers[1];
    assert_eq!(b.opacity.text(), "0.5");
    assert!(!b.visible);
    assert_eq!(b.offset_x.text(), "-3");
    assert_eq!(b.offset_y.text().parse::<f32>().unwrap(), 20.0f32);
    assert_eq!(b.properties.get("k"), Some(&PropertyValue::StringValue("v".to_string())));
    assert_eq!(malformed(parse(&doc("<layer/>"))), "layer must have a name");
    assert_eq!(malformed(parse(&doc("<imagelayer/>"))), "layer must have a name");
    let map = parse(&doc(r#"<layer name="a" opacity="half" visible="maybe"/>"#)).unwrap();
    assert_eq!(map.layers[0].opacity.text(), "1.0");
    assert!(map.layers[0].visible);
}

#[test]
fn layers_of_all_kinds_are_counted_in_one_sequence() {
    let map = parse(&doc(
        r#"<layer name="l0"/><objectgroup name="g1"/><imagelayer name="i2"/><layer name="l3"/>"#,
    ))
    .unwrap();
    assert_eq!(map.layers.len(), 2);
    assert_eq!(map.object_groups.len(), 1);
    assert_eq!(map.image_layers.len(), 1);
    assert_eq!(map.layers[0].layer_index, 0);
    assert_eq!(map.object_groups[0].layer_index, Some(1));
    assert_eq!(map.image_layers[0].layer_index, 2);
    assert_eq!(map.layers[1].layer_index, 3);
    assert_eq!(map.layers[1].name, "l3");
}

#[test]
fn tilesets_and_properties_take_no_layer_index() {
    let map = parse(&doc(
        r#"<tileset firstgid="1" name="x" tilewidth="16" tileheight="16" columns="4"/>
           <properties/><imagelayer name="i0"/><properties/><objectgroup/>"#,
    ))
    .unwrap();
    assert_eq!(map.image_layers[0].layer_index, 0);
    assert_eq!(map.object_groups[0].layer_index, Some(1));
}

#[test]
fn an_embedded_tileset_without_children_is_read() {
    let map = parse(&doc(
        r#"<tileset firstgid="1" name="x" tilewidth="16" tileheight="16" columns="4"/>"#,
    ))
    .unwrap();
    assert_eq!(map.tilesets.len(), 1);
    let ts = &map.tilesets[0];
    assert_eq!(ts.first_gid, 1);
    assert_eq!(ts.name, "x");
    assert_eq!((ts.tile_width, ts.tile_height, ts.columns), (16, 16, 4));
    assert_eq!((ts.spacing, ts.margin), (0, 0));
    assert_eq!(ts.tilecount, None);
    assert!(ts.images.is_empty());
    assert!(ts.tiles.is_empty());
    assert!(ts.properties.entries().is_empty());
}

#[test]
fn a_tileset_with_all_it_can_hold_is_read() {
    let map = parse(&doc(
        r##"<tileset firstgid="7" name="terrain" tilewidth="32" tileheight="32" spacing="1"
                     margin="2" tilecount="9" columns="3">
              <image source="terrain.png" trans="#ff00ff" width="99" height="98"/>
              <properties><property name="biome" value="forest"/></properties>
              <tile id="0" type="grass" probability="0.25">
                <properties><property name="walkable" type="bool" value="true"/></properties>
                <image source="grass.png" width="32" height="32"/>
                <objectgroup draworder="index">
                  <object id="1" x="0" y="0" width="32" height="16"/>
                </objectgroup>
                <animation>
                  <frame tileid="0" duration="100"/>
                  <frame tileid="1" duration="250"/>
                </animation>
              </tile>
              <tile id="4"/>
            </tileset>"##,
    ))
    .unwrap();
    let ts = &map.tilesets[0];
    assert_eq!((ts.first_gid, ts.spacing, ts.margin, ts.tilecount), (7, 1, 2, Some(9)));
    assert_eq!(ts.images.len(), 1);
    assert_eq!(ts.images[0].source, "terrain.png");
    assert_eq!((ts.images[0].width, ts.images[0].height), (99, 98));
    assert_eq!(
        ts.images[0].transparent_colour,
        Some(Colour { red: 255, green: 0, blue: 255 })
    );
    assert_eq!(
        ts.properties.get("biome"),
        Some(&PropertyValue::StringValue("forest".to_string()))
    );
    assert_eq!(ts.tiles.len(), 2);
    let tile = &ts.tiles[0];
    assert_eq!(tile.id, 0);
    assert_eq!(tile.tile_type, Some("grass".to_string()));
    assert_eq!(tile.probability.text().parse::<f32>().unwrap(), 0.25f32);
    assert_eq!(tile.properties.get("walkable"), Some(&PropertyValue::BoolValue(true)));
    assert_eq!(tile.images.len(), 1);
    assert_eq!(tile.images[0].transparent_colour, None);
    let group = tile.objectgroup.as_ref().unwrap();
    assert_eq!(group.layer_index, None);
    assert_eq!(group.objects.len(), 1);
    assert_eq!(group.objects[0].height.text(), "16");
    let frames = tile.animation.as_ref().unwrap();
    assert_eq!(frames.len(), 2);
    assert_eq!((frames[0].tile_id, frames[0].duration), (0, 100));
    assert_eq!((frames[1].tile_id, frames[1].duration), (1, 250));
    let plain = &ts.tiles[1];
    assert_eq!(plain.id, 4);
    assert_eq!(plain.tile_type, None);
    assert_eq!(plain.probability.text().parse::<f32>().unwrap(), 1.0f32);
    assert!(plain.objectgroup.is_none() && plain.animation.is_none());
}

#[test]
fn what_is_wrong_inside_a_tileset_is_reported_as_it_is() {
    let tileset = |body: &str| {
        doc(&format!(
            r#"<tileset firstgid="1" name="x" tilewidth="1" tileheight="1" columns="1">{}</tileset>"#,
            body
        ))
    };
    assert_eq!(
        malformed(parse(&tileset(r#"<image source="a.png"/>"#))),
        "image must have a source, width and height with correct types"
    );
    assert_eq!(
        malformed(parse(&tileset("<tile/>"))),
        "tile must have an id with the correct type"
    );
    assert_eq!(
        malformed(parse(&tileset(r#"<tile id="1"><animation><frame tileid="1"/></animation></tile>"#))),
        "A frame must have tileid and duration"
    );
}

#[test]
fn a_reference_cannot_be_followed_without_a_location() {
    let body = r#"<tileset firstgid="1" source="terrain.tsx"/><layer name="a"/>"#;
    assert_eq!(
        other(parse(&doc(body))),
        "Maps with external tilesets must know their file location.  See parse_with_path(Path)."
    );
    assert_eq!(
        malformed(parse(&doc(r#"<tileset firstgid="1"/>"#))),
        "tileset must have a firstgid, name, tilewidth, tileheight, and columns with correct types"
    );
    assert_eq!(
        malformed(parse(&doc(r#"<tileset source="terrain.tsx"/>"#))),
        "tileset must have a firstgid, name, tilewidth, tileheight, and columns with correct types"
    );
}

#[test]
fn a_reading_stops_at_a_reference_and_goes_on_with_the_tileset() {
    let events = read_events(&doc(
        r#"<tileset firstgid="1" name="a" tilewidth="1" tileheight="1" columns="1"/>
           <layer name="l0"/>
           <tileset firstgid="10" source="../sets/b.tsx"/>
           <layer name="l1"/>
           <tileset firstgid="20" source="c.tsx"/>"#,
    ));
    let reading = start_map(&events).unwrap();
    assert_eq!(reading.layer_index, 0);
    assert_eq!(reading.at, 2);
    let (reading, first_gid, source) = match reading.advance(&events).unwrap() {
        Progress::External { reading, first_gid, source } => (reading, first_gid, source),
        Progress::Done { .. } => panic!("done"),
    };
    assert_eq!((first_gid, source.as_str()), (10, "../sets/b.tsx"));
    assert_eq!(reading.map.tilesets.len(), 1);
    assert_eq!(reading.map.layers.len(), 1);
    assert_eq!(reading.layer_index, 1);
    let b = parse_tileset(
        br#"<tileset name="b" tilewidth="2" tileheight="2" columns="2"><tile id="3"/></tileset>"#,
        first_gid,
    )
    .unwrap();
    let reading = reading.supply(b);
    let (reading, first_gid, source) = match reading.advance(&events).unwrap() {
        Progress::External { reading, first_gid, source } => (reading, first_gid, source),
        Progress::Done { .. } => panic!("done"),
    };
    assert_eq!((first_gid, source.as_str()), (20, "c.tsx"));
    assert_eq!(reading.map.layers.len(), 2);
    let c = parse_tileset(
        br#"<tileset name="c" tilewidth="3" tileheight="3" columns="3"/>"#,
        first_gid,
    )
    .unwrap();
    let map = match reading.supply(c).advance(&events).unwrap() {
        Progress::Done { map, next } => {
            assert!(matches!(events[next], Event::End));
            map
        }
        Progress::External { .. } => panic!("external"),
    };
    let names: Vec<&str> = map.tilesets.iter().map(|t| t.name.as_str()).collect();
    assert_eq!(names, vec!["a", "b", "c"]);
    assert_eq!(map.tilesets.iter().map(|t| t.first_gid).collect::<Vec<u32>>(), vec![1, 10, 20]);
    assert_eq!(map.tilesets[1].tiles.len(), 1);
    assert_eq!(map.layers[1].layer_index, 1);
    assert_eq!(map.get_tileset_by_gid(15).unwrap().name, "b");
}

#[test]
fn a_tileset_document_is_read_with_the_first_gid_it_is_given() {
    let ts = parse_tileset(
        br#"<?xml version="1.0"?>
            <tileset name="t" tilewidth="8" tileheight="9" columns="2" firstgid="99" margin="1">
              <image source="t.png" width="16" height="18"/>
            </tileset>"#,
        5,
    )
    .unwrap();
    assert_eq!(ts.first_gid, 5);
    assert_eq!((ts.tile_width, ts.tile_height, ts.columns, ts.margin), (8, 9, 2, 1));
    assert_eq!(ts.images.len(), 1);
    match parse_tileset(b"<map/>", 1) {
        Err(TiledError::PrematureEnd(m)) => {
            assert_eq!(m, "Tileset Document ended before map was parsed")
        }
        other => panic!("{:?}", other),
    }
    match parse_tileset(br#"<tileset name="t"/>"#, 1) {
        Err(TiledError::MalformedAttributes(m)) => assert_eq!(
            m,
            "tileset must have a firstgid, name, tilewidth, tileheight, and columns with correct types"
        ),
        other => panic!("{:?}", other),
    }
    assert!(matches!(parse_tileset(b"<tileset", 1), Err(TiledError::XmlDecodingError(_))));
}

#[test]
fn objects_have_shapes() {
    let map = parse(&doc(
        r##"<objectgroup name="things" color="#0000ff" opacity="0.75" visible="0">
              <properties><property name="n" type="int" value="2"/></properties>
              <object id="1" gid="5" name="box" type="crate" x="1.5" y="2" width="3" height="4"
                      rotation="45" visible="0"/>
              <object x="10" y="20" width="5" height="6"><ellipse/></object>
              <object x="0" y="0"><polyline points="0,0 1.5,-2 3e1,4"/></object>
              <object x="0" y="0"><polygon points="0,0 1,0 1,1"/>
                <properties><property name="solid" type="bool" value="true"/></properties>
              </object>
              <object x="7" y="8"><point/></object>
            </objectgroup>"##,
    ))
    .unwrap();
    let group = &map.object_groups[0];
    assert_eq!(group.name, "things");
    assert_eq!(group.colour, Some(Colour { red: 0, green: 0, blue: 255 }));
    assert_eq!(group.opacity.text(), "0.75");
    assert!(!group.visible);
    assert_eq!(group.layer_index, Some(0));
    assert_eq!(group.properties.get("n"), Some(&PropertyValue::IntValue(2)));
    assert_eq!(group.objects.len(), 5);
    let real = |s: &str| tiled::Real::parse(s).unwrap();
    let o = &group.objects[0];
    assert_eq!((o.id, o.gid, o.name.as_str(), o.obj_type.as_str()), (1, 5, "box", "crate"));
    assert_eq!((o.x.text(), o.y.text(), o.rotation.text()), ("1.5", "2", "45"));
    assert!(!o.visible);
    assert_eq!(o.shape, ObjectShape::Rect { width: real("3"), height: real("4") });
    let o = &group.objects[1];
    assert_eq!((o.id, o.gid, o.name.as_str(), o.obj_type.as_str()), (0, 0, "", ""));
    assert!(o.visible);
    assert_eq!(o.rotation.text().parse::<f32>().unwrap(), 0.0f32);
    assert_eq!(o.shape, ObjectShape::Ellipse { width: real("5"), height: real("6") });
    assert_eq!(
        group.objects[2].shape,
        ObjectShape::Polyline {
            points: vec![
                (real("0"), real("0")),
                (real("1.5"), real("-2")),
                (real("3e1"), real("4"))
            ]
        }
    );
    assert_eq!(group.objects[2].width.text().parse::<f32>().unwrap(), 0.0f32);
    assert_eq!(
        group.objects[3].shape,
        ObjectShape::Polygon {
            points: vec![(real("0"), real("0")), (real("1"), real("0")), (real("1"), real("1"))]
        }
    );
    assert_eq!(group.objects[3].properties.get("solid"), Some(&PropertyValue::BoolValue(true)));
    assert_eq!(group.objects[4].shape, ObjectShape::Point(real("7"), real("8")));
}

#[test]
fn objects_need_a_position_and_good_points() {
    let group = |body: &str| doc(&format!("<objectgroup>{}</objectgroup>", body));
    let expected = "objects must have an x and a y number";
    assert_eq!(malformed(parse(&group(r#"<object x="1"/>"#))), expected);
    assert_eq!(malformed(parse(&group(r#"<object x="1" y="up"/>"#))), expected);
    assert_eq!(
        malformed(parse(&group(r#"<object x="1" y="2"><polyline/></object>"#))),
        "A polyline must have points"
    );
    assert_eq!(
        malformed(parse(&group(r#"<object x="1" y="2"><polygon/></object>"#))),
        "A polygon must have points"
    );
    for bad in ["", "1", "1,2,3", "1,2  3,4", "1,2 ", " 1,2", "1,2 3", "1 ,2"] {
        assert_eq!(
            other(parse(&group(&format!(
                r#"<object x="1" y="2"><polygon points="{}"/></object>"#,
                bad
            )))),
            "one of a polyline's points does not have an x and y coordinate",
            "{:?}",
            bad
        );
    }
    for bad in ["a,b", "1,", ",2", "1,2 3,x", "1,2 3, 4"] {
        assert_eq!(
            other(parse(&group(&format!(
                r#"<object x="1" y="2"><polyline points="{}"/></object>"#,
                bad
            )))),
            "one of polyline's points does not have i32eger coordinates",
            "{:?}",
            bad
        );
    }
}

#[test]
fn an_image_layer_holds_its_image() {
    let map = parse(&doc(
        r#"<imagelayer name="sky" opacity="0.5" offsetx="4"><image source="sky.png" width="320"
             height="200"/><properties><property name="far" type="bool" value="false"/></properties>
           </imagelayer><imagelayer name="none"/>"#,
    ))
    .unwrap();
    let sky = &map.image_layers[0];
    assert_eq!(sky.name, "sky");
    assert_eq!(sky.opacity.text(), "0.5");
    assert_eq!(sky.offset_x.text(), "4");
    assert_eq!(sky.offset_y.text().parse::<f32>().unwrap(), 0.0f32);
    assert!(sky.visible);
    let image = sky.image.as_ref().unwrap();
    assert_eq!((image.source.as_str(), image.width, image.height), ("sky.png", 320, 200));
    assert_eq!(sky.properties.get("far"), Some(&PropertyValue::BoolValue(false)));
    assert!(map.image_layers[1].image.is_none());
    assert_eq!(map.image_layers[1].layer_index, 1);
}

#[test]
fn an_infinite_layer_holds_chunks_at_their_origins() {
    let map = parse(
        br#"<map version="1.2" orientation="orthogonal" width="4" height="4" tilewidth="8"
                 tileheight="8" infinite="1">
              <layer name="far">
                <data encoding="csv">
                  <chunk x="-2" y="0" width="2" height="2">1,2,
3,4</chunk>
                  <chunk x="0" y="0" width="3" height="1">5,6,7</chunk>
                  <chunk x="-2" y="0" width="1" height="2">8,9</chunk>
                </data>
              </layer>
            </map>"#,
    )
    .unwrap();
    assert!(map.infinite);
    let chunks = match &map.layers[0].tiles {
        LayerData::Infinite(chunks) => chunks,
        LayerData::Finite(_) => panic!("grid"),
    };
    assert_eq!(chunks.list().len(), 2);
    let c = chunks.get(0, 0).unwrap();
    assert_eq!((c.x, c.y, c.width, c.height), (0, 0, 3, 1));
    assert_eq!(c.tiles.len(), 1);
    assert_eq!(gids(&c.tiles[0]), vec![5, 6, 7]);
    let c = chunks.get(-2, 0).unwrap();
    assert_eq!((c.width, c.height), (1, 2));
    assert_eq!(c.tiles.len(), 2);
    assert_eq!(gids(&c.tiles[0]), vec![8]);
    assert_eq!(gids(&c.tiles[1]), vec![9]);
    assert!(chunks.get(2, 0).is_none());
    assert!(chunks.get(0, -2).is_none());
}

#[test]
fn a_chunk_needs_its_origin_and_its_size() {
    let outcome = parse(
        br#"<map version="1.2" orientation="orthogonal" width="4" height="4" tilewidth="8"
                 tileheight="8" infinite="1">
              <layer name="far"><data encoding="csv"><chunk x="0" y="0" width="2">1,2</chunk></data>
              </layer></map>"#,
    );
    assert_eq!(malformed(outcome), "chunk must have an x, y, width and height with correct types");
}

#[test]
fn elements_that_are_not_known_are_passed_over() {
    let map = parse(&doc(
        r#"<editorsettings><export target="x"/></editorsettings>
           <group name="folder"><layer name="inside"/></group>
           <layer name="outside"><unknown a="b">text</unknown></layer>"#,
    ))
    .unwrap();
    let names: Vec<&str> = map.layers.iter().map(|l| l.name.as_str()).collect();
    assert_eq!(names, vec!["inside", "outside"]);
    assert_eq!(map.layers[1].layer_index, 1);
}

#[test]
fn of_several_bags_of_properties_the_last_counts() {
    let map = parse(&doc(
        r#"<properties><property name="a" value="1"/></properties>
           <properties><property name="b" value="2"/></properties>"#,
    ))
    .unwrap();
    assert_eq!(map.properties.get("a"), None);
    assert_eq!(map.properties.get("b"), Some(&PropertyValue::StringValue("2".to_string())));
}

const LARGE: &str = "eNrt0udaDgAAQOGvIllRpAhZDWQ0KKM0lFlZF+TSnYvw9Ov9cW7gfc7QYDAYrpE6U2drtM7VWJ2vC3WxLtXlGq8rdbUmarKu1fWaqhs1XTN1s27VbN2uO3W35upe3a8H9bAe1Xwt1GIt1eN6Uk9ruZ7V83pRL2ulVmut1utVva6N2qw39bbe1fvaqu36UDu1W3u1Xx/roA7rU32uL/W1vtX3OqrjOqkf9bN+1e/6U0M8efI8bc+/PP3JkydPnjx58uTJkydPnjx58uTJkydPnjx58uTJkydPnjx58uTJkydPnjx58uTJkydPnjx58uTJkydPnjx58uTJkydPnjx58uTJkydPnjx58uTJkydPnjx58uTJkydPnjx58uTJkydPnjx58uTJkydPnjx58uTJkydPnjx58uTJkydPnjx58uTJkydPnjx58uTJkydPnjx58uTJkydPnjx58uTJkydPnv/T8x/v/Xxj";

#[test]
fn a_map_as_the_editor_writes_it_is_read() {
    let text = format!(
        r#"<?xml version="1.0" encoding="UTF-8"?>
<map version="1.0" orientation="orthogonal" renderorder="right-down" width="100" height="100"
     tilewidth="32" tileheight="32" nextobjectid="1">
 <tileset firstgid="1" name="tilesheet" tilewidth="32" tileheight="32" tilecount="84" columns="14">
  <image source="tilesheet.png" width="448" height="192"/>
 </tileset>
 <layer name="Tile Layer 1" width="100" height="100">
  <data encoding="base64" compression="zlib">
   {}
  </data>
 </layer>
</map>
"#,
        LARGE
    );
    let map = parse(text.as_bytes()).unwrap();
    assert_eq!((map.width, map.height), (100, 100));
    assert_eq!(map.tilesets[0].tilecount, Some(84));
    assert_eq!(map.tilesets[0].images[0].source, "tilesheet.png");
    let rows = grid(&map.layers[0]);
    assert_eq!(rows.len(), 100);
    for (r, row) in rows.iter().enumerate() {
        assert_eq!(row.len(), 100);
        for (c, tile) in row.iter().enumerate() {
            assert_eq!(tile.gid as usize, 1 + (r * 100 + c) % 84);
            assert_eq!(tile.flip_h, r == 3 && c == 5);
            assert!(!tile.flip_v && !tile.flip_d);
            assert_eq!(map.get_tileset_by_gid(tile.gid).unwrap().name, "tilesheet");
        }
    }
}

#[test]
fn every_beginning_of_a_document_is_an_error_or_a_map() {
    let whole = doc(
        r##"<tileset firstgid="1" name="x" tilewidth="16" tileheight="16" columns="4">
              <image source="a.png" width="1" height="1"/><tile id="1"><animation>
              <frame tileid="1" duration="5"/></animation></tile></tileset>
            <layer name="a"><data encoding="base64" compression="zlib">
              eJxjZGBgYAJiZiBmAWJWIGYDYnYg5gBiAAIAACU=</data>
              <properties><property name="k" type="float" value="1.5"/></properties></layer>
            <objectgroup><object x="1" y="2"><polygon points="0,0 1,1"/></object></objectgroup>
            <imagelayer name="i"><image source="b.png" width="2" height="2"/></imagelayer>"##,
    );
    assert!(parse(&whole).is_ok());
    for end in 0..whole.len() {
        let events = read_events(&whole[..end]);
        assert!(matches!(events.last(), Some(Event::Fault(_)) | Some(Event::End)));
        assert!(parse(&whole[..end]).is_err(), "{}", end);
    }
    for at in 0..whole.len() {
        let mut changed = whole.clone();
        changed[at] = b'<';
        let events = read_events(&changed);
        assert!(matches!(events.last(), Some(Event::Fault(_)) | Some(Event::End)));
        let again = read_events(&changed);
        assert_eq!(events, again);
    }
}

#[test]
fn a_fault_of_the_reader_is_handed_on_as_it_is() {
    let documents: [&[u8]; 6] = [
        b"<a><b></a>",
        b"<map",
        b"",
        b"<a/>trailing",
        b"\xff\xfe<\x00a\x00>\x00\x00\xd8<\x00/\x00a\x00>\x00",
        b"<a>\xff</a>",
    ];
    for broken in documents {
        let events = read_events(broken);
        let fault = match events.last() {
            Some(Event::Fault(fault)) => fault.clone(),
            other => panic!("{:?}", other),
        };
        match parse(broken) {
            Err(TiledError::XmlDecodingError(e)) => {
                assert_eq!(e.to_string(), fault.to_string());
            }
            other => panic!("{:?}", other),
        }
        match parse_tileset(broken, 1) {
            Err(TiledError::XmlDecodingError(e)) => assert_eq!(e.to_string(), fault.to_string()),
            other => panic!("{:?}", other),
        }
    }
}

#[test]
fn a_bad_list_of_points_is_an_error_of_no_other_kind() {
    match parse_points("1,2 3") {
        Err(TiledError::Other(m)) => {
            assert_eq!(m, "one of a polyline's points does not have an x and y coordinate")
        }
        other => panic!("{:?}", other),
    }
    match parse_points("1,2 3,four") {
        Err(TiledError::Other(m)) => {
            assert_eq!(m, "one of polyline's points does not have i32eger coordinates")
        }
        other => panic!("{:?}", other),
    }
    let points = parse_points("1,2 -3.5,4e1").unwrap();
    assert_eq!(points.len(), 2);
    assert_eq!(points[1].0.text(), "-3.5");
    assert_eq!(points[1].1.text(), "4e1");
}

#[test]
fn a_chunk_without_text_does_not_take_the_text_of_the_next() {
    let map = parse(
        br#"<map version="1.2" orientation="orthogonal" width="4" height="4" tilewidth="8"
                 tileheight="8" infinite="1">
              <layer name="far">
                <data encoding="csv">
                  <chunk x="0" y="0" width="2" height="2"/>
                  <chunk x="2" y="0" width="2" height="1">5,6</chunk>
                  <chunk x="4" y="0" width="2" height="1"></chunk>
                  <chunk x="6" y="0" width="1" height="1">7</chunk>
                </data>
                <properties><property name="k" value="v"/></properties>
              </layer>
              <layer name="near"/>
            </map>"#,
    )
    .unwrap();
    assert_eq!(map.layers.len(), 2);
    let chunks = match &map.layers[0].tiles {
        LayerData::Infinite(chunks) => chunks,
        LayerData::Finite(_) => panic!("grid"),
    };
    assert_eq!(chunks.list().len(), 4);
    assert!(chunks.get(0, 0).unwrap().tiles.is_empty());
    assert_eq!(gids(&chunks.get(2, 0).unwrap().tiles[0]), vec![5, 6]);
    assert!(chunks.get(4, 0).unwrap().tiles.is_empty());
    assert_eq!(gids(&chunks.get(6, 0).unwrap().tiles[0]), vec![7]);
    assert_eq!(
        map.layers[0].properties.get("k"),
        Some(&PropertyValue::StringValue("v".to_string()))
    );
}

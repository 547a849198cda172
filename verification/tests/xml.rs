use civmods::xml::{find_update_art_name, sanitize_xml};

fn sanitize(xml: &str) -> Result<String, String> {
    let mut output = vec![];
    sanitize_xml(xml.as_bytes(), &mut output)?;
    Ok(String::from_utf8_lossy(&output).to_string())
}

#[test]
fn test_sanitize_xml() {
    let xml = r#"<Item>ui/shell/extras/screen-extras.js</item>"#;
    let mut output = vec![];
    sanitize_xml(xml.as_bytes(), &mut output).unwrap();
    assert_eq!(
        String::from_utf8_lossy(&output),
        r#"<Item>ui/shell/extras/screen-extras.js</Item>"#,
    );
}

#[test]
fn test_parse_ampersand_in_text() {
    let xml =
        r#"<Mod id="a_mod"><Properties><Name>Mod by me & friends</Name></Properties></Mod>"#;
    let mut buffer = vec![];
    sanitize_xml(xml.as_bytes(), &mut buffer).unwrap();
    let sanitized = String::from_utf8_lossy(&buffer).to_string();

    assert_eq!(
        sanitized,
        r#"<Mod id="a_mod"><Properties><Name>Mod by me &amp; friends</Name></Properties></Mod>"#,
    );
}

#[test]
fn test_update_art_item_with_dep_extension() {
    let modinfo = r#"<Mod id="x"><ActionGroups><ActionGroup id="a"><Actions>
               <UpdateArt><Item>my-art.dep</Item></UpdateArt>
               </Actions></ActionGroup></ActionGroups></Mod>"#;
    assert_eq!(find_update_art_name(modinfo.as_bytes()), Some("my-art".to_string()));
}

const ART_MODINFO: &str = r#"<?xml version="1.0" encoding="utf-8"?>
<Mod id="aaa_mansa" version="1" xmlns="ModInfo">
    <Properties><Name>Mansa Art</Name></Properties>
    <ActionGroups>
        <ActionGroup id="aaa_mansa-game" scope="game" criteria="always">
            <Actions>
                <UpdateArt><Item>aaa_mansa</Item></UpdateArt>
            </Actions>
        </ActionGroup>
    </ActionGroups>
</Mod>"#;

#[test]
fn finds_the_update_art_item() {
    assert_eq!(find_update_art_name(ART_MODINFO.as_bytes()), Some("aaa_mansa".to_string()));
}

#[test]
fn no_update_art_gives_none() {
    let modinfo = r#"<Mod id="aaa_mansa"><Properties><Name>Mansa Art</Name></Properties></Mod>"#;
    assert_eq!(find_update_art_name(modinfo.as_bytes()), None);
}

#[test]
fn item_outside_update_art_is_ignored() {
    let modinfo = r#"<Mod><UpdateText><Item>text.xml</Item></UpdateText><UpdateArt><Item>  art  </Item></UpdateArt></Mod>"#;
    assert_eq!(find_update_art_name(modinfo.as_bytes()), Some("art".to_string()));
}

#[test]
fn tag_names_ignore_ascii_case() {
    let modinfo = r#"<mod><updateart><ITEM>Big.DEP</ITEM></updateart></mod>"#;
    assert_eq!(find_update_art_name(modinfo.as_bytes()), Some("Big".to_string()));
}

#[test]
fn blank_items_are_skipped() {
    let modinfo = r#"<Mod><UpdateArt><Item>   </Item><Item>second</Item></UpdateArt></Mod>"#;
    assert_eq!(find_update_art_name(modinfo.as_bytes()), Some("second".to_string()));
}

#[test]
fn entities_in_the_item_are_resolved() {
    let modinfo = r#"<Mod><UpdateArt><Item>Tom &amp; Jerry &#65;</Item></UpdateArt></Mod>"#;
    assert_eq!(find_update_art_name(modinfo.as_bytes()), Some("Tom & Jerry A".to_string()));
}

#[test]
fn bare_ampersand_in_item_is_escaped_first() {
    let modinfo = r#"<Mod><UpdateArt><Item>Tom & Jerry</Item></UpdateArt></Mod>"#;
    assert_eq!(find_update_art_name(modinfo.as_bytes()), Some("Tom & Jerry".to_string()));
}

#[test]
fn malformed_xml_gives_none() {
    assert_eq!(find_update_art_name(b"<Mod><UpdateArt><Item>x</Item></UpdateArt><!-- x"), None);
}

#[test]
fn sanitize_keeps_markup_as_written() {
    let xml = r#"<?xml version="1.0"?><!DOCTYPE Mod><a b="c"><!-- note --><![CDATA[<raw>]]><e/><?pi data?></a>"#;
    assert_eq!(sanitize(xml).unwrap(), xml);
}

#[test]
fn sanitize_escapes_quotes_in_text() {
    assert_eq!(sanitize(r#"<a>it's "x" &lt;</a>"#).unwrap(), "<a>it&apos;s &quot;x&quot; &lt;</a>");
}

#[test]
fn sanitize_closes_unmatched_end_tags_with_their_own_name() {
    assert_eq!(sanitize("<a></a></b>").unwrap(), "<a></a></b>");
}

#[test]
fn sanitize_reports_syntax_errors() {
    let mut output = vec![];
    let result = sanitize_xml(b"<a><!-- unterminated", &mut output);
    assert!(result.is_err());
    // what came before the error was written
    assert_eq!(output, b"<a>".to_vec());
}

#[test]
fn sanitize_decodes_invalid_utf8_lossily() {
    let mut output = vec![];
    sanitize_xml(b"<a>\xff&</a>", &mut output).unwrap();
    assert_eq!(String::from_utf8(output).unwrap(), "<a>\u{fffd}&amp;</a>");
}

#[test]
fn sanitize_appends_to_the_output() {
    let mut output = b"prefix:".to_vec();
    sanitize_xml(b"<a/>", &mut output).unwrap();
    assert_eq!(output, b"prefix:<a/>".to_vec());
}

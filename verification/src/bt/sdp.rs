//! HID SDP service record, published via BlueZ ProfileManager1.

use vstd::prelude::*;

use crate::hid;
use crate::hid::REPORT_DESCRIPTOR;
use crate::text;

verus! {

/// The record up to the service name.
pub const RECORD_HEAD: &'static str = r#"<?xml version="1.0" encoding="UTF-8" ?>
<record>
  <attribute id="0x0001">
    <sequence><uuid value="0x1124"/></sequence>
  </attribute>
  <attribute id="0x0004">
    <sequence>
      <sequence><uuid value="0x0100"/><uint16 value="0x0011"/></sequence>
      <sequence><uuid value="0x0011"/></sequence>
    </sequence>
  </attribute>
  <attribute id="0x0005">
    <sequence><uuid value="0x1002"/></sequence>
  </attribute>
  <attribute id="0x0006">
    <sequence>
      <uint16 value="0x656e"/><uint16 value="0x006a"/><uint16 value="0x0100"/>
    </sequence>
  </attribute>
  <attribute id="0x0009">
    <sequence>
      <sequence><uuid value="0x1124"/><uint16 value="0x0100"/></sequence>
    </sequence>
  </attribute>
  <attribute id="0x000d">
    <sequence>
      <sequence>
        <sequence><uuid value="0x0100"/><uint16 value="0x0013"/></sequence>
        <sequence><uuid value="0x0011"/></sequence>
      </sequence>
    </sequence>
  </attribute>
  <attribute id="0x0100">
    <text value=""#;

/// The record between the service name and the report descriptor.
pub const RECORD_MIDDLE: &'static str = r#""/>
  </attribute>
  <attribute id="0x0101">
    <text value="Keyboard/mouse switcher"/>
  </attribute>
  <attribute id="0x0201">
    <uint16 value="0x0111"/>
  </attribute>
  <attribute id="0x0202">
    <uint8 value="0xc0"/>
  </attribute>
  <attribute id="0x0203">
    <uint8 value="0x00"/>
  </attribute>
  <attribute id="0x0204">
    <boolean value="true"/>
  </attribute>
  <attribute id="0x0205">
    <boolean value="true"/>
  </attribute>
  <attribute id="0x0206">
    <sequence>
      <sequence>
        <uint8 value="0x22"/>
        <text encoding="hex" value=""#;

/// The record after the report descriptor.
pub const RECORD_TAIL: &'static str = r#""/>
      </sequence>
    </sequence>
  </attribute>
  <attribute id="0x0207">
    <sequence>
      <sequence><uint16 value="0x0409"/><uint16 value="0x0100"/></sequence>
    </sequence>
  </attribute>
  <attribute id="0x0209">
    <boolean value="true"/>
  </attribute>
  <attribute id="0x020a">
    <boolean value="true"/>
  </attribute>
  <attribute id="0x020c">
    <uint16 value="0x1f40"/>
  </attribute>
  <attribute id="0x020d">
    <boolean value="true"/>
  </attribute>
  <attribute id="0x020e">
    <boolean value="true"/>
  </attribute>
  <attribute id="0x020f">
    <uint16 value="0x0012"/>
  </attribute>
  <attribute id="0x0210">
    <uint16 value="0x0000"/>
  </attribute>
</record>
"#;

/// Build the SDP record XML for a HID keyboard/mouse combo device.
/// PSMs: 0x11 control, 0x13 interrupt. Subclass 0xC0 = combo keyboard/pointing.
///
/// `0x0209` HIDBatteryPower is **true** even though the hub runs on mains, and
/// that is the point: no wireless keyboard or mouse in existence is mains
/// powered, so claiming otherwise opts us out of the link power management
/// every real HID device uses. Claiming mains power to keep hosts
/// from putting us in sniff mode does not help against stutter: it is the
/// reverse under load — a sniff link holds reserved anchor points in the
/// host's schedule, while an active link is best-effort and is the first thing
/// starved when the host's radio gets busy. Declaring a battery is how we ask
/// for the reservation.
///
/// `0x020F`/`0x0210` are the SSR host parameters, in units of 0.625 ms: they
/// cap how far the host may subrate us rather than leaving the choice to
/// Apple's default. `MaxLatency` is the knob to loosen first if a host declines
/// SSR outright.
///
/// The SDP half only matters if the system knobs agree — adapter link policy
/// must permit sniff and the kernel's `idle_timeout` must be non-zero (see
/// `setup.sh`), and the L2CAP sockets must not force active mode (see
/// `transport::allow_sniff`).
pub fn hid_service_record(service_name: &str) -> (r: String)
    ensures
        r@ == RECORD_HEAD@ + service_name@ + RECORD_MIDDLE@ + text::hex_lower(REPORT_DESCRIPTOR@)
            + RECORD_TAIL@,
{
    let descriptor = hid::descriptor_hex();
    let mut record = RECORD_HEAD.to_owned();
    record.append(service_name);
    record.append(RECORD_MIDDLE);
    record.append(descriptor.as_str());
    record.append(RECORD_TAIL);
    record
}

/// The service name is the only part of the record that varies: records of
/// different names differ.
pub proof fn law_record_tells_the_name(a: Seq<char>, b: Seq<char>)
    requires
        RECORD_HEAD@ + a + RECORD_MIDDLE@ + text::hex_lower(REPORT_DESCRIPTOR@) + RECORD_TAIL@
            == RECORD_HEAD@ + b + RECORD_MIDDLE@ + text::hex_lower(REPORT_DESCRIPTOR@)
            + RECORD_TAIL@,
    ensures
        a == b,
{
    let rest = RECORD_MIDDLE@ + text::hex_lower(REPORT_DESCRIPTOR@) + RECORD_TAIL@;
    let ra = RECORD_HEAD@ + a + RECORD_MIDDLE@ + text::hex_lower(REPORT_DESCRIPTOR@)
        + RECORD_TAIL@;
    let rb = RECORD_HEAD@ + b + RECORD_MIDDLE@ + text::hex_lower(REPORT_DESCRIPTOR@)
        + RECORD_TAIL@;
    assert(ra =~= RECORD_HEAD@ + a + rest);
    assert(rb =~= RECORD_HEAD@ + b + rest);
    assert(a =~= ra.subrange(RECORD_HEAD@.len() as int, ra.len() - rest.len()));
    assert(b =~= rb.subrange(RECORD_HEAD@.len() as int, rb.len() - rest.len()));
}

/// The record opens as that of a HID device: service class and profile 0x1124,
/// public browsing, and the control and interrupt channels 0x11 and 0x13.
#[verifier::rlimit(40)]
pub proof fn law_record_opens_as_hid()
    ensures
        text::says(RECORD_HEAD@, "id=\"0x0001\">\n    <sequence><uuid value=\"0x1124\"/></sequence>"@),
        text::says(RECORD_HEAD@, "id=\"0x0005\">\n    <sequence><uuid value=\"0x1002\"/></sequence>"@),
        text::says(RECORD_HEAD@, "<sequence><uuid value=\"0x0100\"/><uint16 value=\"0x0011\"/></sequence>"@),
        text::says(RECORD_HEAD@, "<sequence><uuid value=\"0x0100\"/><uint16 value=\"0x0013\"/></sequence>"@),
        text::says(RECORD_HEAD@, "<sequence><uuid value=\"0x1124\"/><uint16 value=\"0x0100\"/></sequence>"@),
{
    reveal_strlit(
        "<?xml version=\"1.0\" encoding=\"UTF-8\" ?>\n<record>\n  <attribute id=\"0x0001\">\n    <sequence><uuid value=\"0x1124\"/></sequence>\n  </attribute>\n  <attribute id=\"0x0004\">\n    <sequence>\n      <sequence><uuid value=\"0x0100\"/><uint16 value=\"0x0011\"/></sequence>\n      <sequence><uuid value=\"0x0011\"/></sequence>\n    </sequence>\n  </attribute>\n  <attribute id=\"0x0005\">\n    <sequence><uuid value=\"0x1002\"/></sequence>\n  </attribute>\n  <attribute id=\"0x0006\">\n    <sequence>\n      <uint16 value=\"0x656e\"/><uint16 value=\"0x006a\"/><uint16 value=\"0x0100\"/>\n    </sequence>\n  </attribute>\n  <attribute id=\"0x0009\">\n    <sequence>\n      <sequence><uuid value=\"0x1124\"/><uint16 value=\"0x0100\"/></sequence>\n    </sequence>\n  </attribute>\n  <attribute id=\"0x000d\">\n    <sequence>\n      <sequence>\n        <sequence><uuid value=\"0x0100\"/><uint16 value=\"0x0013\"/></sequence>\n        <sequence><uuid value=\"0x0011\"/></sequence>\n      </sequence>\n    </sequence>\n  </attribute>\n  <attribute id=\"0x0100\">\n    <text value=\"",
    );
    assert(text::says(RECORD_HEAD@, "id=\"0x0001\">\n    <sequence><uuid value=\"0x1124\"/></sequence>"@)) by {
        reveal_strlit("id=\"0x0001\">\n    <sequence><uuid value=\"0x1124\"/></sequence>");
        assert(RECORD_HEAD@.subrange(62, 122) =~= "id=\"0x0001\">\n    <sequence><uuid value=\"0x1124\"/></sequence>"@);
        text::lemma_says_at(RECORD_HEAD@, 62, "id=\"0x0001\">\n    <sequence><uuid value=\"0x1124\"/></sequence>"@);
    }
    assert(text::says(RECORD_HEAD@, "id=\"0x0005\">\n    <sequence><uuid value=\"0x1002\"/></sequence>"@)) by {
        reveal_strlit("id=\"0x0005\">\n    <sequence><uuid value=\"0x1002\"/></sequence>");
        assert(RECORD_HEAD@.subrange(347, 407) =~= "id=\"0x0005\">\n    <sequence><uuid value=\"0x1002\"/></sequence>"@);
        text::lemma_says_at(RECORD_HEAD@, 347, "id=\"0x0005\">\n    <sequence><uuid value=\"0x1002\"/></sequence>"@);
    }
    assert(text::says(RECORD_HEAD@, "<sequence><uuid value=\"0x0100\"/><uint16 value=\"0x0011\"/></sequence>"@)) by {
        reveal_strlit("<sequence><uuid value=\"0x0100\"/><uint16 value=\"0x0011\"/></sequence>");
        assert(RECORD_HEAD@.subrange(185, 252) =~= "<sequence><uuid value=\"0x0100\"/><uint16 value=\"0x0011\"/></sequence>"@);
        text::lemma_says_at(RECORD_HEAD@, 185, "<sequence><uuid value=\"0x0100\"/><uint16 value=\"0x0011\"/></sequence>"@);
    }
    assert(text::says(RECORD_HEAD@, "<sequence><uuid value=\"0x0100\"/><uint16 value=\"0x0013\"/></sequence>"@)) by {
        reveal_strlit("<sequence><uuid value=\"0x0100\"/><uint16 value=\"0x0013\"/></sequence>");
        assert(RECORD_HEAD@.subrange(786, 853) =~= "<sequence><uuid value=\"0x0100\"/><uint16 value=\"0x0013\"/></sequence>"@);
        text::lemma_says_at(RECORD_HEAD@, 786, "<sequence><uuid value=\"0x0100\"/><uint16 value=\"0x0013\"/></sequence>"@);
    }
    assert(text::says(RECORD_HEAD@, "<sequence><uuid value=\"0x1124\"/><uint16 value=\"0x0100\"/></sequence>"@)) by {
        reveal_strlit("<sequence><uuid value=\"0x1124\"/><uint16 value=\"0x0100\"/></sequence>");
        assert(RECORD_HEAD@.subrange(621, 688) =~= "<sequence><uuid value=\"0x1124\"/><uint16 value=\"0x0100\"/></sequence>"@);
        text::lemma_says_at(RECORD_HEAD@, 621, "<sequence><uuid value=\"0x1124\"/><uint16 value=\"0x0100\"/></sequence>"@);
    }
}

/// The record describes a HID 1.11 keyboard and pointer combo that can be
/// unplugged and reconnects, with a report descriptor to follow.
#[verifier::rlimit(40)]
pub proof fn law_record_describes_a_combo()
    ensures
        text::says(RECORD_MIDDLE@, "id=\"0x0201\">\n    <uint16 value=\"0x0111\"/>"@),
        text::says(RECORD_MIDDLE@, "id=\"0x0202\">\n    <uint8 value=\"0xc0\"/>"@),
        text::says(RECORD_MIDDLE@, "id=\"0x0203\">\n    <uint8 value=\"0x00\"/>"@),
        text::says(RECORD_MIDDLE@, "id=\"0x0204\">\n    <boolean value=\"true\"/>"@),
        text::says(RECORD_MIDDLE@, "id=\"0x0205\">\n    <boolean value=\"true\"/>"@),
        text::says(RECORD_MIDDLE@, "<uint8 value=\"0x22\"/>"@),
{
    reveal_strlit(
        "\"/>\n  </attribute>\n  <attribute id=\"0x0101\">\n    <text value=\"Keyboard/mouse switcher\"/>\n  </attribute>\n  <attribute id=\"0x0201\">\n    <uint16 value=\"0x0111\"/>\n  </attribute>\n  <attribute id=\"0x0202\">\n    <uint8 value=\"0xc0\"/>\n  </attribute>\n  <attribute id=\"0x0203\">\n    <uint8 value=\"0x00\"/>\n  </attribute>\n  <attribute id=\"0x0204\">\n    <boolean value=\"true\"/>\n  </attribute>\n  <attribute id=\"0x0205\">\n    <boolean value=\"true\"/>\n  </attribute>\n  <attribute id=\"0x0206\">\n    <sequence>\n      <sequence>\n        <uint8 value=\"0x22\"/>\n        <text encoding=\"hex\" value=\"",
    );
    assert(text::says(RECORD_MIDDLE@, "id=\"0x0201\">\n    <uint16 value=\"0x0111\"/>"@)) by {
        reveal_strlit("id=\"0x0201\">\n    <uint16 value=\"0x0111\"/>");
        assert(RECORD_MIDDLE@.subrange(117, 158) =~= "id=\"0x0201\">\n    <uint16 value=\"0x0111\"/>"@);
        text::lemma_says_at(RECORD_MIDDLE@, 117, "id=\"0x0201\">\n    <uint16 value=\"0x0111\"/>"@);
    }
    assert(text::says(RECORD_MIDDLE@, "id=\"0x0202\">\n    <uint8 value=\"0xc0\"/>"@)) by {
        reveal_strlit("id=\"0x0202\">\n    <uint8 value=\"0xc0\"/>");
        assert(RECORD_MIDDLE@.subrange(187, 225) =~= "id=\"0x0202\">\n    <uint8 value=\"0xc0\"/>"@);
        text::lemma_says_at(RECORD_MIDDLE@, 187, "id=\"0x0202\">\n    <uint8 value=\"0xc0\"/>"@);
    }
    assert(text::says(RECORD_MIDDLE@, "id=\"0x0203\">\n    <uint8 value=\"0x00\"/>"@)) by {
        reveal_strlit("id=\"0x0203\">\n    <uint8 value=\"0x00\"/>");
        assert(RECORD_MIDDLE@.subrange(254, 292) =~= "id=\"0x0203\">\n    <uint8 value=\"0x00\"/>"@);
        text::lemma_says_at(RECORD_MIDDLE@, 254, "id=\"0x0203\">\n    <uint8 value=\"0x00\"/>"@);
    }
    assert(text::says(RECORD_MIDDLE@, "id=\"0x0204\">\n    <boolean value=\"true\"/>"@)) by {
        reveal_strlit("id=\"0x0204\">\n    <boolean value=\"true\"/>");
        assert(RECORD_MIDDLE@.subrange(321, 361) =~= "id=\"0x0204\">\n    <boolean value=\"true\"/>"@);
        text::lemma_says_at(RECORD_MIDDLE@, 321, "id=\"0x0204\">\n    <boolean value=\"true\"/>"@);
    }
    assert(text::says(RECORD_MIDDLE@, "id=\"0x0205\">\n    <boolean value=\"true\"/>"@)) by {
        reveal_strlit("id=\"0x0205\">\n    <boolean value=\"true\"/>");
        assert(RECORD_MIDDLE@.subrange(390, 430) =~= "id=\"0x0205\">\n    <boolean value=\"true\"/>"@);
        text::lemma_says_at(RECORD_MIDDLE@, 390, "id=\"0x0205\">\n    <boolean value=\"true\"/>"@);
    }
    assert(text::says(RECORD_MIDDLE@, "<uint8 value=\"0x22\"/>"@)) by {
        reveal_strlit("<uint8 value=\"0x22\"/>");
        assert(RECORD_MIDDLE@.subrange(512, 533) =~= "<uint8 value=\"0x22\"/>"@);
        text::lemma_says_at(RECORD_MIDDLE@, 512, "<uint8 value=\"0x22\"/>"@);
    }
}

/// The record claims a battery, remote wake, a boot device that is normally
/// connectable, and bounds how far the link may be subrated.
#[verifier::rlimit(40)]
pub proof fn law_record_claims_a_battery()
    ensures
        text::says(RECORD_TAIL@, "id=\"0x0209\">\n    <boolean value=\"true\"/>"@),
        text::says(RECORD_TAIL@, "id=\"0x020a\">\n    <boolean value=\"true\"/>"@),
        text::says(RECORD_TAIL@, "id=\"0x020c\">\n    <uint16 value=\"0x1f40\"/>"@),
        text::says(RECORD_TAIL@, "id=\"0x020d\">\n    <boolean value=\"true\"/>"@),
        text::says(RECORD_TAIL@, "id=\"0x020e\">\n    <boolean value=\"true\"/>"@),
        text::says(RECORD_TAIL@, "id=\"0x020f\">\n    <uint16 value=\"0x0012\"/>"@),
        text::says(RECORD_TAIL@, "id=\"0x0210\">\n    <uint16 value=\"0x0000\"/>"@),
        text::says(RECORD_TAIL@, "<uint16 value=\"0x0409\"/><uint16 value=\"0x0100\"/>"@),
{
    reveal_strlit(
        "\"/>\n      </sequence>\n    </sequence>\n  </attribute>\n  <attribute id=\"0x0207\">\n    <sequence>\n      <sequence><uint16 value=\"0x0409\"/><uint16 value=\"0x0100\"/></sequence>\n    </sequence>\n  </attribute>\n  <attribute id=\"0x0209\">\n    <boolean value=\"true\"/>\n  </attribute>\n  <attribute id=\"0x020a\">\n    <boolean value=\"true\"/>\n  </attribute>\n  <attribute id=\"0x020c\">\n    <uint16 value=\"0x1f40\"/>\n  </attribute>\n  <attribute id=\"0x020d\">\n    <boolean value=\"true\"/>\n  </attribute>\n  <attribute id=\"0x020e\">\n    <boolean value=\"true\"/>\n  </attribute>\n  <attribute id=\"0x020f\">\n    <uint16 value=\"0x0012\"/>\n  </attribute>\n  <attribute id=\"0x0210\">\n    <uint16 value=\"0x0000\"/>\n  </attribute>\n</record>\n",
    );
    assert(text::says(RECORD_TAIL@, "id=\"0x0209\">\n    <boolean value=\"true\"/>"@)) by {
        reveal_strlit("id=\"0x0209\">\n    <boolean value=\"true\"/>");
        assert(RECORD_TAIL@.subrange(214, 254) =~= "id=\"0x0209\">\n    <boolean value=\"true\"/>"@);
        text::lemma_says_at(RECORD_TAIL@, 214, "id=\"0x0209\">\n    <boolean value=\"true\"/>"@);
    }
    assert(text::says(RECORD_TAIL@, "id=\"0x020a\">\n    <boolean value=\"true\"/>"@)) by {
        reveal_strlit("id=\"0x020a\">\n    <boolean value=\"true\"/>");
        assert(RECORD_TAIL@.subrange(283, 323) =~= "id=\"0x020a\">\n    <boolean value=\"true\"/>"@);
        text::lemma_says_at(RECORD_TAIL@, 283, "id=\"0x020a\">\n    <boolean value=\"true\"/>"@);
    }
    assert(text::says(RECORD_TAIL@, "id=\"0x020c\">\n    <uint16 value=\"0x1f40\"/>"@)) by {
        reveal_strlit("id=\"0x020c\">\n    <uint16 value=\"0x1f40\"/>");
        assert(RECORD_TAIL@.subrange(352, 393) =~= "id=\"0x020c\">\n    <uint16 value=\"0x1f40\"/>"@);
        text::lemma_says_at(RECORD_TAIL@, 352, "id=\"0x020c\">\n    <uint16 value=\"0x1f40\"/>"@);
    }
    assert(text::says(RECORD_TAIL@, "id=\"0x020d\">\n    <boolean value=\"true\"/>"@)) by {
        reveal_strlit("id=\"0x020d\">\n    <boolean value=\"true\"/>");
        assert(RECORD_TAIL@.subrange(422, 462) =~= "id=\"0x020d\">\n    <boolean value=\"true\"/>"@);
        text::lemma_says_at(RECORD_TAIL@, 422, "id=\"0x020d\">\n    <boolean value=\"true\"/>"@);
    }
    assert(text::says(RECORD_TAIL@, "id=\"0x020e\">\n    <boolean value=\"true\"/>"@)) by {
        reveal_strlit("id=\"0x020e\">\n    <boolean value=\"true\"/>");
        assert(RECORD_TAIL@.subrange(491, 531) =~= "id=\"0x020e\">\n    <boolean value=\"true\"/>"@);
        text::lemma_says_at(RECORD_TAIL@, 491, "id=\"0x020e\">\n    <boolean value=\"true\"/>"@);
    }
    assert(text::says(RECORD_TAIL@, "id=\"0x020f\">\n    <uint16 value=\"0x0012\"/>"@)) by {
        reveal_strlit("id=\"0x020f\">\n    <uint16 value=\"0x0012\"/>");
        assert(RECORD_TAIL@.subrange(560, 601) =~= "id=\"0x020f\">\n    <uint16 value=\"0x0012\"/>"@);
        text::lemma_says_at(RECORD_TAIL@, 560, "id=\"0x020f\">\n    <uint16 value=\"0x0012\"/>"@);
    }
    assert(text::says(RECORD_TAIL@, "id=\"0x0210\">\n    <uint16 value=\"0x0000\"/>"@)) by {
        reveal_strlit("id=\"0x0210\">\n    <uint16 value=\"0x0000\"/>");
        assert(RECORD_TAIL@.subrange(630, 671) =~= "id=\"0x0210\">\n    <uint16 value=\"0x0000\"/>"@);
        text::lemma_says_at(RECORD_TAIL@, 630, "id=\"0x0210\">\n    <uint16 value=\"0x0000\"/>"@);
    }
    assert(text::says(RECORD_TAIL@, "<uint16 value=\"0x0409\"/><uint16 value=\"0x0100\"/>"@)) by {
        reveal_strlit("<uint16 value=\"0x0409\"/><uint16 value=\"0x0100\"/>");
        assert(RECORD_TAIL@.subrange(110, 158) =~= "<uint16 value=\"0x0409\"/><uint16 value=\"0x0100\"/>"@);
        text::lemma_says_at(RECORD_TAIL@, 110, "<uint16 value=\"0x0409\"/><uint16 value=\"0x0100\"/>"@);
    }
}

} // verus!

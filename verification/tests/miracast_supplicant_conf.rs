//! The supplicant's configuration.
use castr::miracast::supplicant_conf::{from_template, network_blocks, reseed};

    const TEMPLATE: &str = "\
ctrl_interface=DIR=/run/wpa_supplicant_castr GROUP=castr
update_config=0
device_name=castr
p2p_go_intent=15
";

    const WITH_GROUP: &str = "\
ctrl_interface=DIR=/run/wpa_supplicant_castr GROUP=castr
update_config=1
device_name=castr
p2p_go_intent=15
network={
\tssid=\"DIRECT-xyDietPi\"
\tpsk=\"secretpassphrase\"
\tmode=3
\tdisabled=2
}
";

    #[test]
    fn the_working_copy_lets_the_supplicant_save() {
        // Without this the persistent group is not persistent at all, and a
        // source that paired once can never get back in.
        let out = from_template(TEMPLATE);
        assert!(out.contains("update_config=1"));
        assert!(!out.contains("update_config=0"));
    }

    #[test]
    fn every_other_setting_survives_unchanged() {
        let out = from_template(TEMPLATE);
        for line in [
            "ctrl_interface=DIR=/run/wpa_supplicant_castr GROUP=castr",
            "device_name=castr",
            "p2p_go_intent=15",
        ] {
            assert!(out.contains(line), "lost {line:?}");
        }
    }

    #[test]
    fn a_template_with_no_update_config_still_gets_one() {
        let out = from_template("device_name=castr\n");
        assert!(out.contains("update_config=1"));
        assert!(out.contains("device_name=castr"));
    }

    #[test]
    fn the_stored_group_is_read_back_verbatim() {
        let blocks = network_blocks(WITH_GROUP);
        assert_eq!(blocks.len(), 1);
        assert!(blocks[0].contains("DIRECT-xyDietPi"));
        assert!(blocks[0].contains("secretpassphrase"));
        assert!(blocks[0].trim_end().ends_with('}'));
    }

    #[test]
    fn a_configuration_with_no_group_yields_none() {
        assert!(network_blocks(TEMPLATE).is_empty());
    }

    #[test]
    fn reseeding_keeps_the_groups_and_takes_the_new_settings() {
        // A deploy that changes a radio setting must not cost every paired PC
        // its credentials.
        let newer = TEMPLATE.replace("p2p_go_intent=15", "p2p_go_intent=15\np2p_go_ht40=1");
        let out = reseed(&newer, WITH_GROUP);
        assert!(out.contains("p2p_go_ht40=1"), "new setting missing");
        assert!(out.contains("update_config=1"));
        assert!(out.contains("DIRECT-xyDietPi"), "stored group lost");
        assert!(out.contains("secretpassphrase"));
        assert_eq!(network_blocks(&out).len(), 1);
    }

    #[test]
    fn reseeding_carries_over_several_groups() {
        let two = format!("{WITH_GROUP}network={{\n\tssid=\"DIRECT-ab\"\n}}\n");
        let out = reseed(TEMPLATE, &two);
        assert_eq!(network_blocks(&out).len(), 2);
    }

    #[test]
    fn the_working_copy_is_stable_when_derived_twice() {
        // Re-deriving from the same template must not drift, or the sink would
        // rewrite the file - and restart pairing - on every start.
        assert_eq!(from_template(TEMPLATE), from_template(&from_template(TEMPLATE)));
    }

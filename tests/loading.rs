use log_pm_dataset_generator::loading::{message_extractor, Extractor};

fn run(name: &str, line: &str) -> Option<String> {
    message_extractor(&name.to_string()).expect("supported dataset").extract(line.to_string())
}

#[test]
fn every_dataset_name_has_its_strategy() {
    let names = [
        ("hadoop", Extractor::Hadoop),
        ("proxifier", Extractor::Proxifier),
        ("ssh", Extractor::Ssh),
        ("linux", Extractor::Linux),
        ("openstack", Extractor::Openstack),
        ("hdfs", Extractor::Hdfs),
        ("android", Extractor::Android),
        ("apache", Extractor::Apache),
        ("zookeeper", Extractor::Zookeeper),
        ("hpc", Extractor::Hpc),
    ];
    for (name, e) in names {
        assert_eq!(message_extractor(&name.to_string()), Some(e));
    }
    assert_eq!(message_extractor(&"windows".to_string()), None);
    assert_eq!(message_extractor(&"Hadoop".to_string()), None);
    assert_eq!(message_extractor(&"".to_string()), None);
}

#[test]
fn hadoop_message_follows_bracket_and_colon() {
    let line = "2015-10-18 18:01:47,978 INFO [main] org.apache.hadoop.mapreduce.v2.app.MRAppMaster: Created MRAppMaster";
    assert_eq!(run("hadoop", line), Some("Created MRAppMaster".to_string()));
    assert_eq!(run("hadoop", "short [x]: y"), None);
    assert_eq!(run("hadoop", "2015-10-18 18:01:47,978 INFO no bracket here"), None);
}

#[test]
fn proxifier_message_starts_at_byte_seventeen() {
    let line = "[10.30 16:49:06] chrome.exe - proxy.cse.cuhk.edu.hk:5070 open through proxy";
    assert_eq!(run("proxifier", line), Some("chrome.exe - proxy.cse.cuhk.edu.hk:5070 open through proxy".to_string()));
    assert_eq!(run("proxifier", "[10.30 16:49:06] x\u{a0}\u{3000}"), Some("x".to_string()));
    assert_eq!(run("proxifier", "short"), None);
    assert_eq!(run("proxifier", "ééééééééé"), None);
}

#[test]
fn ssh_and_openstack_skip_after_the_bracket() {
    let ssh = "Dec 10 06:55:46 LabSZ sshd[24200]: reverse mapping checking getaddrinfo";
    assert_eq!(run("ssh", ssh), Some("reverse mapping checking getaddrinfo".to_string()));
    let os = "nova-api.log.1.2017-05-16_13:53:08 2017-05-16 00:00:00.008 25746 INFO nova.osapi_compute.wsgi.server [req-38101a0b] 10.11.10.1 \"GET /v2\"";
    assert_eq!(run("openstack", os), Some("10.11.10.1 \"GET /v2\"".to_string()));
    assert_eq!(run("ssh", "Dec 10 LabSZ sshd[1]: x"), None);
}

#[test]
fn linux_message_follows_the_first_colon_after_the_header() {
    let line = "Jun 14 15:16:01 combo sshd(pam_unix)[19939]: authentication failure; logname= uid=0";
    assert_eq!(run("linux", line), Some("authentication failure; logname= uid=0".to_string()));
    assert_eq!(run("linux", "Jun 14 15:16:01 combo kernel:    "), None);
    assert_eq!(run("linux", "Jun 14 15:16:01 combo"), None);
}

#[test]
fn hdfs_message_follows_five_fields() {
    let line = "081109 203615 148 INFO dfs.DataNode$PacketResponder: PacketResponder 1 for block blk_38865049064139660 terminating";
    assert_eq!(run("hdfs", line), Some("PacketResponder 1 for block blk_38865049064139660 terminating".to_string()));
    assert_eq!(run("hdfs", "  a b  "), Some("b".to_string()));
}

#[test]
fn android_message_follows_the_tag() {
    let line = "03-17 16:13:38.811  1702  2395 D WindowManager: printFreezingDisplayLogsopening app wtoken";
    assert_eq!(run("android", line), Some("printFreezingDisplayLogsopening app wtoken".to_string()));
    assert_eq!(run("android", "03-17 16:13:38.811  1702  2395 D "), None);
    assert_eq!(run("android", "too short"), None);
}

#[test]
fn apache_message_follows_the_level() {
    let line = "[Sun Dec 04 04:47:44 2005] [notice] workerEnv.init() ok /etc/httpd/conf/workers2.properties";
    assert_eq!(run("apache", line), Some("workerEnv.init() ok /etc/httpd/conf/workers2.properties".to_string()));
    assert_eq!(run("apache", "[Sun Dec 04 04:47:44 2005] [notice]   "), None);
    assert_eq!(run("apache", "[Sun Dec 04 04:47:44 2005] [notice no close"), None);
}

#[test]
fn zookeeper_message_follows_two_separators() {
    let line = "2015-07-29 17:41:44,747 - INFO  [QuorumPeer[myid=1]/0:0:0:0:0:0:0:0:2181:FastLeaderElection@774] - Notification time out: 3200";
    assert_eq!(run("zookeeper", line), Some("Notification time out: 3200".to_string()));
    assert_eq!(run("zookeeper", "no separators"), Some("no separators".to_string()));
}

#[test]
fn hpc_message_drops_the_flag_field() {
    let line = "134681 node-246 unix.hw state_change.unavailable 1077804742 1 Component State Change: Component is unavailable";
    assert_eq!(run("hpc", line), Some("Component State Change: Component is unavailable".to_string()));
    assert_eq!(run("hpc", "a b c d e f 1 msg"), Some("msg".to_string()));
    assert_eq!(run("hpc", "a b c d e f 0 msg"), Some("msg".to_string()));
    assert_eq!(run("hpc", "a b c d e f xy"), None);
}

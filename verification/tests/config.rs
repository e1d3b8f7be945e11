use audio_server::project::config::{
    control_log_limit, osc_input_log_limit, osc_input_port, osc_output_log_limit, seed,
    window_height, window_width,
};
use audio_server::project::cpu_saving_mode;

#[test]
fn project_config_defaults() {
    assert_eq!(window_width(), 1280);
    assert_eq!(window_height(), 720);
    assert_eq!(osc_input_port(), 9001);
    assert_eq!(osc_input_log_limit(), 50);
    assert_eq!(osc_output_log_limit(), 10);
    assert_eq!(control_log_limit(), 50);
    assert_eq!(seed(), [0u8; 16]);
    assert!(!cpu_saving_mode());
}

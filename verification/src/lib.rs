pub mod text;
pub mod mavlink_params;
pub mod thread_stat;
pub mod video_types;
pub mod libcamera_modes;
pub mod caps;
pub mod controls;
pub mod pending;
pub mod libcamera_controls;
pub mod element_probe;
pub mod pipeline_stats;
pub mod sources;
pub mod stream_types;
pub mod messages;
pub mod settings;
pub mod settings_file;
pub mod sensor_modes;
pub mod mavlink_camera;
pub mod sorted_sets;
pub mod device_formats;
pub mod v4l_controls;
pub mod pipeline_topology;
pub mod pts_match;
pub mod stream_health;
pub mod pipeline_structure;
